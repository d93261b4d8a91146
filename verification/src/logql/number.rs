//! Decimal number literals.
//!
//! A literal stands for the double-precision number nearest to the decimal
//! that it writes. What the language asks of such numbers is decided here on
//! the digits, exactly.

use crate::bignum::{lemma_raised_add, lemma_raised_positive, raised, Natural};
use crate::edit::to_chars;
use crate::logql::double::{
    nearest_double, round_to_double, shortest, shortest_digits, Double, INFINITE, MANTISSA,
    MIN_EXPONENT,
};
use crate::numbers::{decimal, decimal_string, digits_value, zeros};
use crate::scan::{lemma_run_end, run_end, skip_run, ByteClass};
use crate::text::cat2;
use vstd::prelude::*;
use vstd::string::*;
use vstd::utf8::*;

verus! {

/// A decimal: the digits of its whole and fractional part, where the decimal
/// point stands between them (from their start), and the sign.
pub ghost struct Decimal {
    pub negative: bool,
    pub digits: Seq<u8>,
    pub point: int,
}

/// The parts of a literal: `[sign] whole [. fraction] [e [sign] exponent]`.
pub ghost struct Parts {
    /// Where the whole part starts
    pub start: int,
    /// Where it ends
    pub whole: int,
    /// Where the fraction starts
    pub fraction: int,
    /// Where it ends
    pub mantissa: int,
    /// Where the digits of the exponent start
    pub exponent: int,
    /// Where they end
    pub end: int,
}

/// Whether `b` has a sign at `i`.
pub open spec fn sign_at(b: Seq<u8>, i: int) -> bool {
    i < b.len() && (b[i] == '+' as u8 || b[i] == '-' as u8)
}

/// Whether an exponent starts at `i`.
pub open spec fn exponent_at(b: Seq<u8>, i: int) -> bool {
    i < b.len() && (b[i] == 'e' as u8 || b[i] == 'E' as u8)
}

/// The parts of the literal `b`.
pub open spec fn parts(b: Seq<u8>) -> Parts {
    let start: int = if sign_at(b, 0) {
        1
    } else {
        0
    };
    let whole = run_end(b, start, ByteClass::Digit);
    let fraction = if whole < b.len() && b[whole] == '.' as u8 {
        whole + 1
    } else {
        whole
    };
    let mantissa = run_end(b, fraction, ByteClass::Digit);
    let exponent = if !exponent_at(b, mantissa) {
        mantissa
    } else if sign_at(b, mantissa + 1) {
        mantissa + 2
    } else {
        mantissa + 1
    };
    Parts { start, whole, fraction, mantissa, exponent, end: run_end(b, exponent, ByteClass::Digit) }
}

/// The decimal that `b` writes, if it is a literal: at least one digit, and at
/// least one behind an `e`.
pub open spec fn decimal_of(b: Seq<u8>) -> Option<Decimal> {
    let p = parts(b);
    if p.end != b.len() || (p.whole == p.start && p.mantissa == p.fraction) || (exponent_at(
        b,
        p.mantissa,
    ) && p.end == p.exponent) {
        None
    } else {
        let magnitude = digits_value(b.subrange(p.exponent, p.end));
        let exponent = if !exponent_at(b, p.mantissa) {
            0
        } else if b[p.mantissa + 1] == '-' as u8 {
            -magnitude
        } else {
            magnitude
        };
        Some(
            Decimal {
                negative: sign_at(b, 0) && b[0] == '-' as u8,
                digits: b.subrange(p.start, p.whole) + b.subrange(p.fraction, p.mantissa),
                point: p.whole - p.start + exponent,
            },
        )
    }
}

/// The number of zeros at the start of `d`.
pub open spec fn leading_zeros(d: Seq<u8>) -> int
    decreases d.len(),
{
    if d.len() > 0 && d[0] == '0' as u8 {
        1 + leading_zeros(d.drop_first())
    } else {
        0
    }
}

/// The digits of `1 + 2^-53`, with the point behind the first. Decimals up to
/// it round to the double 1; those above round to a greater one.
pub const ROUNDS_TO_ONE: [u8; 54] = [
    1, 0, 0, 0, 0, 0, 0, 0, 0, 0, 0, 0, 0, 0, 0, 0, 1, 1, 1, 0, 2, 2, 3, 0, 2, 4, 6, 2, 5, 1, 5,
    6, 5, 4, 0, 4, 2, 3, 6, 3, 1, 6, 6, 8, 0, 9, 0, 8, 2, 0, 3, 1, 2, 5,
];

/// Whether the fraction with digits `d` is greater than the one with the digit
/// values `c`.
pub open spec fn fraction_exceeds(d: Seq<u8>, c: Seq<u8>) -> bool
    decreases d.len(),
{
    if d.len() == 0 {
        false
    } else {
        let digit = d[0] - '0' as u8;
        let limit = if c.len() > 0 {
            c[0] as int
        } else {
            0
        };
        let rest = if c.len() > 0 {
            c.drop_first()
        } else {
            c
        };
        digit > limit || (digit == limit && fraction_exceeds(d.drop_first(), rest))
    }
}

/// Whether the double nearest to the literal `b` lies outside 0 to 1. Text that
/// is no literal counts as 0.
pub open spec fn outside_unit(b: Seq<u8>) -> bool {
    match decimal_of(b) {
        None => false,
        Some(d) => {
            let zeros = leading_zeros(d.digits);
            let significant = d.digits.subrange(zeros, d.digits.len() as int);
            let point = d.point - zeros;
            significant.len() > 0 && (d.negative || point > 1 || (point == 1 && fraction_exceeds(
                significant,
                ROUNDS_TO_ONE@,
            )))
        },
    }
}

/// `s` without the zeros at its end.
pub open spec fn without_trailing_zeros(s: Seq<char>) -> Seq<char>
    decreases s.len(),
{
    if s.len() > 0 && s.last() == '0' {
        without_trailing_zeros(s.drop_last())
    } else {
        s
    }
}

/// Digits with the decimal point at `point`, from their start.
pub open spec fn with_point(digits: Seq<char>, point: int) -> Seq<char> {
    if point <= 0 {
        "0."@ + zeros(-point) + digits
    } else if point >= digits.len() {
        digits + zeros(point - digits.len())
    } else {
        digits.take(point) + "."@ + digits.skip(point)
    }
}

/// A double as it is shown: its shortest digits, without an exponent and without
/// needless zeros.
pub open spec fn double_text(d: Double) -> Seq<char> {
    if d.m == 0 {
        "0"@
    } else {
        let (c, at) = shortest(d);
        let digits = decimal(c as nat);
        with_point(without_trailing_zeros(digits), digits.len() + at)
    }
}

/// The double nearest to the number with digits `d` and the decimal point at
/// `point`, from their start; `None` where that is infinite.
pub open spec fn double_of(d: Seq<u8>, point: int) -> Option<Double> {
    if point >= d.len() {
        nearest_double(digits_value(d) * raised(10, point - d.len()), 1)
    } else {
        nearest_double(digits_value(d), raised(10, d.len() - point))
    }
}

/// How a number is shown: as the double nearest to it. Text that is no literal
/// counts as 0. From 10^310 on all is infinite, and below 10^-330 all is 0.
pub open spec fn shown(b: Seq<u8>) -> Seq<char> {
    match decimal_of(b) {
        None => "0"@,
        Some(d) => {
            let leading = leading_zeros(d.digits);
            let digits = d.digits.subrange(leading, d.digits.len() as int);
            let point = d.point - leading;
            let size = if digits.len() == 0 || point < -330 {
                "0"@
            } else if point > 310 {
                "inf"@
            } else {
                match double_of(digits, point) {
                    Some(x) => double_text(x),
                    None => "inf"@,
                }
            };
            if d.negative {
                "-"@ + size
            } else {
                size
            }
        },
    }
}

/// The digits of an exponent, up to a bound that no mantissa outweighs.
fn exponent_value(b: &[u8], start: usize, end: usize) -> (r: i128)
    requires
        start <= end <= b.len(),
        forall|i: int| start <= i < end ==> ByteClass::Digit.has(#[trigger] b@[i]),
    ensures
        0 <= r <= 0x1_0000_0000_0000_0000_0000_0000,
        ({
            let v = digits_value(b@.subrange(start as int, end as int));
            v < 0x1_0000_0000_0000_0000_0000_0000 ==> r == v
        }),
        ({
            let v = digits_value(b@.subrange(start as int, end as int));
            v >= 0x1_0000_0000_0000_0000_0000_0000 ==> r == 0x1_0000_0000_0000_0000_0000_0000
        }),
{
    let cap: i128 = 0x1_0000_0000_0000_0000_0000_0000;
    let mut r: i128 = 0;
    let mut i: usize = start;
    while i < end
        invariant
            start <= i <= end <= b.len(),
            cap == 0x1_0000_0000_0000_0000_0000_0000,
            forall|i: int| start <= i < end ==> ByteClass::Digit.has(#[trigger] b@[i]),
            0 <= r <= cap,
            digits_value(b@.subrange(start as int, i as int)) >= 0,
            ({
                let v = digits_value(b@.subrange(start as int, i as int));
                (v < cap ==> r == v) && (v >= cap ==> r == cap)
            }),
        decreases end - i,
    {
        let digit = (b[i] - '0' as u8) as i128;
        proof {
            let upto = b@.subrange(start as int, i + 1);
            assert(upto.drop_last() =~= b@.subrange(start as int, i as int));
        }
        r = r * 10 + digit;
        if r > cap {
            r = cap;
        }
        i += 1;
    }
    r
}

/// Whether the fraction with the digits `b[start..whole] b[fraction..end]`
/// exceeds the one with the digit values `c`.
fn digits_exceed(b: &[u8], start: usize, whole: usize, fraction: usize, end: usize, c: &[u8]) -> (r:
    bool)
    requires
        start <= whole <= fraction <= end <= b.len(),
        forall|i: int| start <= i < whole ==> ByteClass::Digit.has(#[trigger] b@[i]),
        forall|i: int| fraction <= i < end ==> ByteClass::Digit.has(#[trigger] b@[i]),
    ensures
        r == fraction_exceeds(
            b@.subrange(start as int, whole as int) + b@.subrange(fraction as int, end as int),
            c@,
        ),
{
    let ghost all = b@.subrange(start as int, whole as int) + b@.subrange(
        fraction as int,
        end as int,
    );
    let n = (whole - start) as usize;
    let mut i: usize = start;
    let mut k: usize = 0;
    let ghost rest = all;
    let ghost limits = c@;
    if start == whole {
        i = fraction;
    }
    assert(all.subrange(0, all.len() as int) =~= all);
    assert(c@.subrange(0, c@.len() as int) =~= c@);
    loop
        invariant
            start <= whole <= fraction <= end <= b.len(),
            all == b@.subrange(start as int, whole as int) + b@.subrange(
                fraction as int,
                end as int,
            ),
            forall|i: int| start <= i < whole ==> ByteClass::Digit.has(#[trigger] b@[i]),
            forall|i: int| fraction <= i < end ==> ByteClass::Digit.has(#[trigger] b@[i]),
            n == whole - start,
            k < n ==> i == start + k,
            k >= n ==> i == fraction + (k - n),
            i <= end,
            k <= all.len(),
            rest == all.subrange(k as int, all.len() as int),
            k <= c.len() ==> limits == c@.subrange(k as int, c@.len() as int),
            k > c.len() ==> limits.len() == 0,
            fraction_exceeds(all, c@) == fraction_exceeds(rest, limits),
        decreases all.len() - k,
    {
        if i >= end || (i >= whole && fraction == end) {
            assert(k == all.len());
            return false;
        }
        assert(k < all.len());
        let digit = b[i] - '0' as u8;
        let limit: u8 = if k < c.len() {
            c[k]
        } else {
            0
        };
        assert(rest[0] == all[k as int]);
        assert(limits.len() > 0 ==> limits[0] == c@[k as int]);
        if digit > limit {
            return true;
        }
        if digit < limit {
            return false;
        }
        proof {
            assert(rest.drop_first() =~= all.subrange(k + 1, all.len() as int));
            rest = rest.drop_first();
            if limits.len() > 0 {
                assert(limits.drop_first() =~= c@.subrange(k + 1, c@.len() as int));
                limits = limits.drop_first();
            }
        }
        k += 1;
        i = if k == n {
            fraction
        } else {
            i + 1
        };
    }
}

proof fn lemma_leading_zeros(d: Seq<u8>, z: int)
    requires
        0 <= z <= d.len(),
        forall|i: int| 0 <= i < z ==> d[i] == '0' as u8,
        z < d.len() ==> d[z] != '0' as u8,
    ensures
        leading_zeros(d) == z,
    decreases d.len(),
{
    if z > 0 {
        let rest = d.drop_first();
        assert forall|i: int| 0 <= i < z - 1 implies rest[i] == '0' as u8 by {
            assert(rest[i] == d[i + 1]);
        }
        lemma_leading_zeros(rest, z - 1);
    }
}

/// Skips the zeros of `b[start..end]`.
fn skip_zeros(b: &[u8], start: usize, end: usize) -> (r: usize)
    requires
        start <= end <= b.len(),
    ensures
        start <= r <= end,
        forall|i: int| start <= i < r ==> b@[i] == '0' as u8,
        r < end ==> b@[r as int] != '0' as u8,
{
    let mut r: usize = start;
    while r < end && b[r] == '0' as u8
        invariant
            start <= r <= end <= b.len(),
            forall|i: int| start <= i < r ==> b@[i] == '0' as u8,
        decreases end - r,
    {
        r += 1;
    }
    r
}

fn has_sign(b: &[u8], i: usize) -> (r: bool)
    ensures
        r == sign_at(b@, i as int),
{
    i < b.len() && (b[i] == '+' as u8 || b[i] == '-' as u8)
}

/// Where the parts of a literal stand.
struct PartsAt {
    start: usize,
    whole: usize,
    fraction: usize,
    mantissa: usize,
    exponent: usize,
    end: usize,
}

impl PartsAt {
    spec fn value(&self) -> Parts {
        Parts {
            start: self.start as int,
            whole: self.whole as int,
            fraction: self.fraction as int,
            mantissa: self.mantissa as int,
            exponent: self.exponent as int,
            end: self.end as int,
        }
    }
}

fn find_parts(b: &[u8]) -> (p: PartsAt)
    ensures
        p.value() == parts(b@),
        p.start <= p.whole <= p.fraction <= p.mantissa <= p.exponent <= p.end <= b.len(),
        p.mantissa < p.exponent <==> exponent_at(b@, p.mantissa as int),
        forall|i: int| p.start <= i < p.whole ==> ByteClass::Digit.has(#[trigger] b@[i]),
        forall|i: int| p.fraction <= i < p.mantissa ==> ByteClass::Digit.has(#[trigger] b@[i]),
        forall|i: int| p.exponent <= i < p.end ==> ByteClass::Digit.has(#[trigger] b@[i]),
{
    let start: usize = if has_sign(b, 0) {
        1
    } else {
        0
    };
    let whole = skip_run(b, start, ByteClass::Digit);
    let fraction = if whole < b.len() && b[whole] == '.' as u8 {
        whole + 1
    } else {
        whole
    };
    let mantissa = skip_run(b, fraction, ByteClass::Digit);
    let exponent = if !(mantissa < b.len() && (b[mantissa] == 'e' as u8 || b[mantissa]
        == 'E' as u8)) {
        mantissa
    } else if has_sign(b, mantissa + 1) {
        mantissa + 2
    } else {
        mantissa + 1
    };
    let end = skip_run(b, exponent, ByteClass::Digit);
    proof {
        lemma_run_end(b@, start as int, ByteClass::Digit);
        lemma_run_end(b@, fraction as int, ByteClass::Digit);
        lemma_run_end(b@, exponent as int, ByteClass::Digit);
    }
    PartsAt { start, whole, fraction, mantissa, exponent, end }
}

/// The digits of the parts `p` from the first that is not zero: as the range of
/// the whole part, the start of the fraction and the number of zeros before.
fn significant_digits(b: &[u8], p: &PartsAt) -> (r: (usize, usize, usize, i128))
    requires
        p.start <= p.whole <= p.fraction <= p.mantissa <= b.len(),
    ensures
        r.0 <= r.1 <= r.2 <= p.mantissa,
        p.start <= r.0,
        r.0 == r.1 || r.1 == p.whole,
        r.0 < r.1 ==> r.2 == p.fraction,
        r.0 == r.1 ==> p.fraction <= r.2,
        ({
            let d = b@.subrange(p.start as int, p.whole as int) + b@.subrange(
                p.fraction as int,
                p.mantissa as int,
            );
            &&& r.3 == leading_zeros(d)
            &&& 0 <= r.3 <= d.len()
            &&& d.subrange(r.3 as int, d.len() as int) == b@.subrange(r.0 as int, r.1 as int)
                + b@.subrange(r.2 as int, p.mantissa as int)
        }),
{
    let ghost d = b@.subrange(p.start as int, p.whole as int) + b@.subrange(
        p.fraction as int,
        p.mantissa as int,
    );
    let first = skip_zeros(b, p.start, p.whole);
    if first < p.whole {
        proof {
            let z = first - p.start;
            assert forall|i: int| 0 <= i < z implies d[i] == '0' as u8 by {
                assert(d[i] == b@[p.start + i]);
            }
            lemma_leading_zeros(d, z);
            assert(d.subrange(z, d.len() as int) =~= b@.subrange(first as int, p.whole as int)
                + b@.subrange(p.fraction as int, p.mantissa as int));
        }
        (first, p.whole, p.fraction, (first - p.start) as i128)
    } else {
        let f = skip_zeros(b, p.fraction, p.mantissa);
        proof {
            let w = p.whole - p.start;
            let z = w + (f - p.fraction);
            assert forall|i: int| 0 <= i < z implies d[i] == '0' as u8 by {
                if i < w {
                    assert(d[i] == b@[p.start + i]);
                } else {
                    assert(d[i] == b@[p.fraction + (i - w)]);
                }
            }
            lemma_leading_zeros(d, z);
            assert(d.subrange(z, d.len() as int) =~= b@.subrange(f as int, f as int)
                + b@.subrange(f as int, p.mantissa as int));
        }
        (f, f, f, (p.whole - p.start) as i128 + (f - p.fraction) as i128)
    }
}

/// The number that the digits `b[from..upto] b[rest..end]` write.
fn read_number(b: &[u8], from: usize, upto: usize, rest: usize, end: usize) -> (r: Natural)
    requires
        from <= upto <= rest <= end <= b.len(),
        forall|i: int| from <= i < upto ==> ByteClass::Digit.has(#[trigger] b@[i]),
        forall|i: int| rest <= i < end ==> ByteClass::Digit.has(#[trigger] b@[i]),
    ensures
        r@ == digits_value(
            b@.subrange(from as int, upto as int) + b@.subrange(rest as int, end as int),
        ),
        r@ >= 0,
{
    let mut n = Natural::small(0);
    let mut i: usize = from;
    while i < upto
        invariant
            from <= i <= upto <= b.len(),
            forall|i: int| from <= i < upto ==> ByteClass::Digit.has(#[trigger] b@[i]),
            n@ == digits_value(b@.subrange(from as int, i as int)),
        decreases upto - i,
    {
        assert(b@.subrange(from as int, i + 1).drop_last() =~= b@.subrange(from as int, i as int));
        n.mul_add(10, (b[i] - '0' as u8) as u32);
        i += 1;
    }
    let ghost whole = b@.subrange(from as int, upto as int);
    let mut k: usize = rest;
    assert(whole + b@.subrange(rest as int, rest as int) =~= whole);
    while k < end
        invariant
            rest <= k <= end <= b.len(),
            forall|i: int| rest <= i < end ==> ByteClass::Digit.has(#[trigger] b@[i]),
            n@ == digits_value(whole + b@.subrange(rest as int, k as int)),
        decreases end - k,
    {
        assert((whole + b@.subrange(rest as int, k + 1)).drop_last() =~= whole + b@.subrange(
            rest as int,
            k as int,
        ));
        n.mul_add(10, (b[k] - '0' as u8) as u32);
        k += 1;
    }
    proof {
        n.lemma_natural();
    }
    n
}

/// The double nearest to a number of `len` digits with the decimal point at
/// `point`.
fn find_double(number: Natural, len: usize, point: i128) -> (r: Option<Double>)
    requires
        number@ >= 0,
        -330 <= point <= 310,
    ensures
        forall|d: Seq<u8>|
            d.len() == len && #[trigger] digits_value(d) == number@ ==> r == double_of(
                d,
                point as int,
            ),
        match r {
            Some(d) => d.m < 2 * MANTISSA && MIN_EXPONENT <= d.e < INFINITE,
            None => true,
        },
{
    let mut num = number;
    let mut den = Natural::small(1);
    if point <= 0 {
        den.tenfold(len);
        den.tenfold((-point) as usize);
        proof {
            lemma_raised_add(10, len as int, -point as int);
            lemma_raised_positive(10, len - point);
            let (x, y) = (raised(10, len as int), raised(10, -point as int));
            assert((1 * x) * y == x * y);
            if len == 0 && point == 0 {
                assert(number@ * raised(10, 0) == number@);
            }
        }
    } else if len < point as usize {
        num.tenfold(point as usize - len);
        proof {
            lemma_raised_positive(10, point - len);
            let s = raised(10, point - len);
            assert(number@ * s >= 0) by (nonlinear_arith)
                requires
                    number@ >= 0,
                    s >= 1,
            ;
        }
    } else {
        den.tenfold(len - point as usize);
        proof {
            lemma_raised_positive(10, len - point);
            assert(number@ * raised(10, 0) == number@);
            assert(1 * raised(10, len - point) == raised(10, len - point));
        }
    }
    round_to_double(num, &den)
}

fn drop_trailing_zeros(digits: &mut Vec<char>)
    ensures
        final(digits)@ == without_trailing_zeros(old(digits)@),
{
    let ghost all = digits@;
    while digits.len() > 0 && digits[digits.len() - 1] == '0'
        invariant
            without_trailing_zeros(all) == without_trailing_zeros(digits@),
        decreases digits.len(),
    {
        digits.pop();
    }
}

fn push_zeros(s: &mut String, n: usize)
    ensures
        final(s)@ == old(s)@ + zeros(n as int),
{
    let ghost before = s@;
    let mut i: usize = 0;
    assert(before + zeros(0) =~= before);
    while i < n
        invariant
            i <= n,
            s@ == before + zeros(i as int),
        decreases n - i,
    {
        s.push('0');
        assert(zeros(i + 1) =~= zeros(i as int).push('0'));
        assert(before + zeros(i as int).push('0') =~= (before + zeros(i as int)).push('0'));
        i += 1;
    }
}

fn push_chars(s: &mut String, chars: &Vec<char>, from: usize, upto: usize)
    requires
        from <= upto <= chars.len(),
    ensures
        final(s)@ == old(s)@ + chars@.subrange(from as int, upto as int),
{
    let ghost before = s@;
    let mut i: usize = from;
    assert(before + chars@.subrange(from as int, from as int) =~= before);
    while i < upto
        invariant
            from <= i <= upto <= chars.len(),
            s@ == before + chars@.subrange(from as int, i as int),
        decreases upto - i,
    {
        s.push(chars[i]);
        assert(chars@.subrange(from as int, i + 1) =~= chars@.subrange(from as int, i as int).push(
            chars@[i as int],
        ));
        assert(s@ =~= before + chars@.subrange(from as int, i + 1));
        i += 1;
    }
}

fn push_with_point(s: &mut String, digits: &Vec<char>, point: i128)
    requires
        -1000 <= point <= 1000,
    ensures
        final(s)@ == old(s)@ + with_point(digits@, point as int),
{
    let ghost before = s@;
    let n = digits.len();
    if point <= 0 {
        s.append("0.");
        push_zeros(s, (-point) as usize);
        push_chars(s, digits, 0, n);
    } else if point as usize >= n {
        push_chars(s, digits, 0, n);
        push_zeros(s, point as usize - n);
    } else {
        let at = point as usize;
        push_chars(s, digits, 0, at);
        s.append(".");
        push_chars(s, digits, at, n);
        assert(digits@.subrange(0, at as int) =~= digits@.take(at as int));
        assert(digits@.subrange(at as int, n as int) =~= digits@.skip(at as int));
    }
    assert(digits@.subrange(0, n as int) =~= digits@);
    assert(s@ =~= before + with_point(digits@, point as int));
}

/// Whether the double nearest to the literal `text` lies outside 0 to 1.
pub fn is_outside_unit(text: &str) -> (r: bool)
    ensures
        r == outside_unit(text.spec_bytes()),
{
    let b = text.as_bytes();
    let p = find_parts(b);
    let scaled = p.mantissa < p.exponent;
    if p.end != b.len() || (p.whole == p.start && p.mantissa == p.fraction) || (scaled && p.end
        == p.exponent) {
        return false;
    }
    let size = exponent_value(b, p.exponent, p.end);
    let power: i128 = if !scaled {
        0
    } else if b[p.mantissa + 1] == '-' as u8 {
        -size
    } else {
        size
    };
    let (from, upto, rest, zeros) = significant_digits(b, &p);
    if from == upto && rest == p.mantissa {
        return false;
    }
    let negative = has_sign(b, 0) && b[0] == '-' as u8;
    let point: i128 = (p.whole - p.start) as i128 + power - zeros;
    if negative || point > 1 {
        true
    } else {
        point == 1 && digits_exceed(b, from, upto, rest, p.mantissa, &ROUNDS_TO_ONE)
    }
}

/// A double as it is shown.
fn show_double(d: Double) -> (r: String)
    requires
        d.m < 2 * MANTISSA,
        MIN_EXPONENT <= d.e < INFINITE,
    ensures
        r@ == double_text(d),
{
    if d.m == 0 {
        return "0".to_string();
    }
    let (c, at) = shortest_digits(d);
    let mut digits = to_chars(decimal_string(c).as_str());
    let len = digits.len();
    proof {
        lemma_decimal_len(c as nat);
    }
    drop_trailing_zeros(&mut digits);
    let mut out = String::new();
    assert(out@ =~= seq![]);
    push_with_point(&mut out, &digits, len as i128 + at as i128);
    assert(out@ =~= double_text(d));
    out
}

proof fn lemma_decimal_len(n: nat)
    requires
        n <= u64::MAX,
    ensures
        1 <= decimal(n).len() <= 20,
{
    reveal_with_fuel(decimal, 20);
}

/// A number as messages show it.
#[verifier::rlimit(40)]
pub fn show_number(text: &str) -> (r: String)
    ensures
        r@ == shown(text.spec_bytes()),
{
    let b = text.as_bytes();
    let p = find_parts(b);
    let scaled = p.mantissa < p.exponent;
    if p.end != b.len() || (p.whole == p.start && p.mantissa == p.fraction) || (scaled && p.end
        == p.exponent) {
        return "0".to_string();
    }
    let exponent = exponent_value(b, p.exponent, p.end);
    let power: i128 = if !scaled {
        0
    } else if b[p.mantissa + 1] == '-' as u8 {
        -exponent
    } else {
        exponent
    };
    let (from, upto, rest, leading) = significant_digits(b, &p);
    let len = (upto - from) + (p.mantissa - rest);
    let point: i128 = (p.whole - p.start) as i128 + power - leading;
    let size = if len == 0 || point < -330 {
        "0".to_string()
    } else if point > 310 {
        "inf".to_string()
    } else {
        let number = read_number(b, from, upto, rest, p.mantissa);
        match find_double(number, len, point) {
            Some(x) => show_double(x),
            None => "inf".to_string(),
        }
    };
    if has_sign(b, 0) && b[0] == '-' as u8 {
        cat2("-", size.as_str())
    } else {
        size
    }
}

} // verus!
