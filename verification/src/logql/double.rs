//! Doubles and how they are shown, on whole numbers.
//!
//! A double is `m * 2^e` with a mantissa `m` below 2^53. A number stands for the
//! double nearest to it, of two equally near for the one with the even mantissa.
//! A double is shown with the fewest digits that stand for it.

use crate::bignum::{
    lemma_raised_add, lemma_raised_monotone, lemma_raised_positive, lemma_ten_and_two, raised,
    Natural,
};
use vstd::prelude::*;

verus! {

// ── Rounding ─────────────────────────────────────────────────────────────────

/// 2^52, the least mantissa of doubles that are not close to zero.
pub const MANTISSA: u64 = 0x10_0000_0000_0000;

/// The least exponent.
pub const MIN_EXPONENT: i64 = -1074;

/// The exponent from which on numbers are infinite.
pub const INFINITE: i64 = 972;

/// A double: `m * 2^e`.
#[derive(Debug, Clone, Copy, PartialEq, Eq, Structural)]
pub struct Double {
    pub m: u64,
    pub e: i64,
}

/// A fraction `num / den * 2^e`.
pub ghost struct Fraction {
    pub num: int,
    pub den: int,
    pub e: int,
}

/// The fraction with a greater exponent, until its quotient is below 2^53.
pub open spec fn scaled_up(f: Fraction) -> Fraction
    decreases INFINITE - f.e,
{
    if f.e < INFINITE && f.num >= f.den * (2 * MANTISSA) {
        scaled_up(Fraction { num: f.num, den: f.den * 2, e: f.e + 1 })
    } else {
        f
    }
}

/// The fraction with a smaller exponent, until its quotient is at least 2^52.
pub open spec fn scaled_down(f: Fraction) -> Fraction
    decreases f.e - MIN_EXPONENT,
{
    if f.e > MIN_EXPONENT && f.num < f.den * MANTISSA {
        scaled_down(Fraction { num: f.num * 2, den: f.den, e: f.e - 1 })
    } else {
        f
    }
}

/// The whole number nearest to `num / den`; of two equally near, the even one.
pub open spec fn nearest_whole(num: int, den: int) -> int {
    let q = num / den;
    let r = num - q * den;
    if 2 * r > den || (2 * r == den && q % 2 == 1) {
        q + 1
    } else {
        q
    }
}

/// The double nearest to `num / den`; `None` where that is infinite.
pub open spec fn nearest_double(num: int, den: int) -> Option<Double> {
    let f = scaled_down(scaled_up(Fraction { num, den, e: 0 }));
    let m = nearest_whole(f.num, f.den);
    let d = if m == 2 * MANTISSA {
        Double { m: MANTISSA, e: (f.e + 1) as i64 }
    } else {
        Double { m: m as u64, e: f.e as i64 }
    };
    if f.e >= INFINITE || d.e >= INFINITE {
        None
    } else {
        Some(d)
    }
}

// ── Shortest digits ──────────────────────────────────────────────────────────

/// A double and its neighbourhood, in units of `10^k / den`: the double is
/// `num`, and what lies up to `below` under it and up to `above` over it stands
/// for it.
pub ghost struct Place {
    pub num: int,
    pub below: int,
    pub above: int,
    pub den: int,
    pub k: int,
}

/// The neighbourhood of a double: half the distance to the next one on either
/// side. Under a power of two they are half as far apart.
pub open spec fn place_of(d: Double) -> Place {
    let below: int = if d.m == MANTISSA && d.e > MIN_EXPONENT {
        1
    } else {
        2
    };
    if d.e >= 2 {
        let s = raised(2, d.e - 2);
        Place { num: 4 * d.m * s, below: below * s, above: 2 * s, den: 1, k: 0 }
    } else {
        Place { num: 4 * d.m, below, above: 2, den: raised(2, 2 - d.e), k: 0 }
    }
}

/// The place with a greater `k`, until the double is below `10^k`.
pub open spec fn lowered(p: Place) -> Place
    decreases
            if p.num >= p.den {
                p.num - p.den + 1
            } else {
                0
            },
{
    if 0 < p.den <= p.num {
        lowered(Place { den: p.den * 10, k: p.k + 1, ..p })
    } else {
        p
    }
}

/// The place with a smaller `k`, until the double is at least `10^(k - 1)`.
pub open spec fn lifted(p: Place) -> Place
    decreases p.den - p.num,
{
    if 0 < p.num && p.num * 10 < p.den {
        lifted(
            Place {
                num: p.num * 10,
                below: p.below * 10,
                above: p.above * 10,
                k: p.k - 1,
                ..p
            },
        )
    } else {
        p
    }
}

/// Whether `c * 10^(k - n)` stands for the double; on the very edge of its
/// neighbourhood that is so for even mantissas.
pub open spec fn stands_for(p: Place, even: bool, c: int, n: int) -> bool {
    let s = raised(10, n);
    if even {
        (p.num - p.below) * s <= c * p.den <= (p.num + p.above) * s
    } else {
        (p.num - p.below) * s < c * p.den < (p.num + p.above) * s
    }
}

/// The number of `n` digits that stands for the double, the nearer one of the
/// two next to it; of two equally near, the greater.
pub open spec fn rounded_at(p: Place, even: bool, n: int) -> int {
    let s = raised(10, n);
    let c = (p.num * s) / p.den;
    let down = stands_for(p, even, c, n);
    let up = stands_for(p, even, c + 1, n);
    let nearer = if 2 * (p.num * s - c * p.den) < p.den {
        c
    } else {
        c + 1
    };
    if down && !up {
        c
    } else if up && !down {
        c + 1
    } else {
        nearer
    }
}

/// The fewest digits, from `n` on, that stand for the double, with their number;
/// 17 always do.
pub open spec fn shortest_from(p: Place, even: bool, n: int) -> (int, int)
    decreases 17 - n,
{
    let c = (p.num * raised(10, n)) / p.den;
    if n >= 17 || stands_for(p, even, c, n) || stands_for(p, even, c + 1, n) {
        (rounded_at(p, even, n), n)
    } else {
        shortest_from(p, even, n + 1)
    }
}

/// The shortest number that stands for a double which is not 0, and the place of
/// its decimal point, counted from the number's end.
pub open spec fn shortest(d: Double) -> (int, int) {
    let p = lifted(lowered(place_of(d)));
    let (c, n) = shortest_from(p, d.m % 2 == 0, 1);
    (c, p.k - n)
}

// ── Rounding, computed ───────────────────────────────────────────────────────

/// Divides `a` by `half * 2 / 2^53`: the quotient, with the remainder times 2^53
/// left in `a`.
fn divide(a: &mut Natural, half: &Natural) -> (q: u64)
    requires
        0 <= old(a)@ < 2 * half@,
    ensures
        q < 2 * MANTISSA,
        old(a)@ * (2 * MANTISSA) == 2 * (q * half@) + final(a)@,
        0 <= final(a)@ < 2 * half@,
{
    let ghost start = a@;
    let ghost h = half@;
    let mut q: u64 = 0;
    let mut i: u64 = 0;
    let mut power: u64 = 1;
    assert(start * 1 == start && 0 * h == 0);
    while i < 53
        invariant
            i <= 53,
            h == half@,
            power == raised(2, i as int),
            power <= 2 * MANTISSA,
            i < 53 ==> power <= MANTISSA,
            q < power,
            start * power == 2 * (q * h) + a@,
            0 <= a@ < 2 * h,
        decreases 53 - i,
    {
        let ghost (q0, a0, p0) = (q as int, a@, power as int);
        if a.at_least(half) {
            a.subtract(half);
            q = 2 * q + 1;
            assert((2 * q0 + 1) * h == 2 * (q0 * h) + h) by (nonlinear_arith);
        } else {
            q = 2 * q;
            assert((2 * q0) * h == 2 * (q0 * h)) by (nonlinear_arith);
        }
        a.mul_add(2, 0);
        power = 2 * power;
        i += 1;
        proof {
            assert(start * (2 * p0) == 2 * (start * p0)) by (nonlinear_arith);
            assert(raised(2, i as int) == 2 * raised(2, i - 1));
            lemma_power_bound(i as int);
        }
    }
    proof {
        reveal_with_fuel(raised, 54);
    }
    q
}

proof fn lemma_power_bound(i: int)
    requires
        0 <= i <= 53,
    ensures
        raised(2, i) <= 2 * MANTISSA,
        i < 53 ==> raised(2, i) <= MANTISSA,
{
    lemma_raised_monotone(2, i, 53);
    if i < 53 {
        lemma_raised_monotone(2, i, 52);
    }
    reveal_with_fuel(raised, 54);
}

/// The double nearest to `num / den`.
pub fn round_to_double(num: Natural, den: &Natural) -> (r: Option<Double>)
    requires
        num@ >= 0,
        den@ > 0,
    ensures
        r == nearest_double(num@, den@),
        match r {
            Some(d) => d.m < 2 * MANTISSA && MIN_EXPONENT <= d.e < INFINITE,
            None => true,
        },
{
    let ghost f0 = Fraction { num: num@, den: den@, e: 0 };
    let mut a = num;
    let mut half = den.copy();
    half.double(52);
    let mut e: i64 = 0;
    let ghost b = den@;
    proof {
        reveal_with_fuel(raised, 53);
    }
    let mut bound = half.copy();
    bound.mul_add(2, 0);
    while e < INFINITE && a.at_least(&bound)
        invariant
            0 <= e <= INFINITE,
            a@ == f0.num,
            a@ >= 0,
            b > 0,
            half@ == b * MANTISSA,
            bound@ == b * (2 * MANTISSA),
            e > 0 ==> a@ >= half@,
            scaled_up(f0) == scaled_up(Fraction { num: a@, den: b, e: e as int }),
        decreases INFINITE - e,
    {
        half.mul_add(2, 0);
        bound.mul_add(2, 0);
        e += 1;
        proof {
            assert((b * 2) * MANTISSA == 2 * (b * MANTISSA)) by (nonlinear_arith);
            assert((b * 2) * (2 * MANTISSA) == 2 * (b * (2 * MANTISSA))) by (nonlinear_arith);
            assert(b * (2 * MANTISSA) == 2 * (b * MANTISSA)) by (nonlinear_arith);
            b = b * 2;
        }
    }
    let ghost up = Fraction { num: a@, den: b, e: e as int };
    assert(scaled_up(f0) == up);
    if e >= INFINITE {
        assert(scaled_down(up) == up);
        return None;
    }
    while e > MIN_EXPONENT && !a.at_least(&half)
        invariant
            MIN_EXPONENT <= e < INFINITE,
            b > 0,
            0 <= a@ < 2 * half@,
            half@ == b * MANTISSA,
            scaled_down(up) == scaled_down(Fraction { num: a@, den: b, e: e as int }),
        decreases e - MIN_EXPONENT,
    {
        a.mul_add(2, 0);
        e -= 1;
    }
    let ghost f = Fraction { num: a@, den: b, e: e as int };
    assert(scaled_down(up) == f);
    let q = divide(&mut a, &half);
    proof {
        lemma_quotient(f.num, b, q as int, a@);
    }
    let over = a.at_least(&half);
    let under = half.at_least(&a);
    let m = if over && (!under || q % 2 == 1) {
        q + 1
    } else {
        q
    };
    assert(m == nearest_whole(f.num, f.den));
    let d = if m == 2 * MANTISSA {
        Double { m: MANTISSA, e: e + 1 }
    } else {
        Double { m, e }
    };
    if d.e >= INFINITE {
        None
    } else {
        Some(d)
    }
}

/// What long division gives: quotient and remainder.
proof fn lemma_quotient(num: int, den: int, q: int, rest: int)
    requires
        den > 0,
        num * (2 * MANTISSA) == 2 * (q * (den * MANTISSA)) + rest,
        0 <= rest < 2 * (den * MANTISSA),
    ensures
        num / den == q,
        rest == (num - q * den) * (2 * MANTISSA),
{
    let r = num - q * den;
    let w = 2 * MANTISSA;
    assert(w == 0x20_0000_0000_0000 && MANTISSA == 0x10_0000_0000_0000);
    assert(2 * (q * (den * MANTISSA)) == (q * den) * w) by (nonlinear_arith)
        requires
            w == 2 * MANTISSA,
    ;
    assert(rest == r * w) by (nonlinear_arith)
        requires
            num * w == (q * den) * w + rest,
            r == num - q * den,
    ;
    assert(rest < den * w);
    assert(0 <= r < den) by (nonlinear_arith)
        requires
            0 <= rest < den * w,
            rest == r * w,
            w > 0,
    ;
    vstd::arithmetic::div_mod::lemma_fundamental_div_mod_converse(num, den, q, r);
}

// ── Shortest digits, computed ────────────────────────────────────────────────

/// A place under computation.
struct Scale {
    num: Natural,
    below: Natural,
    above: Natural,
    den: Natural,
    k: i64,
}

impl Scale {
    spec fn place(self) -> Place {
        Place {
            num: self.num@,
            below: self.below@,
            above: self.above@,
            den: self.den@,
            k: self.k as int,
        }
    }
}

/// A bound on all that places of doubles start with.
spec fn within(n: int) -> bool {
    0 < n < raised(2, 1200)
}

proof fn lemma_within(m: int, e: int)
    requires
        0 < m <= 8 * MANTISSA,
        0 <= e <= 1080,
    ensures
        within(m * raised(2, e)),
        raised(2, e) > 0,
{
    lemma_raised_positive(2, e);
    lemma_raised_add(2, 56, e);
    lemma_raised_monotone(2, 56 + e, 1199);
    lemma_raised_positive(2, 1199);
    assert(raised(2, 1200) == 2 * raised(2, 1199));
    assert(raised(2, 56) == 16 * MANTISSA) by {
        reveal_with_fuel(raised, 57);
    }
    let p = raised(2, e);
    assert(0 < m * p && m * p <= (16 * MANTISSA) * p) by (nonlinear_arith)
        requires
            0 < m <= 8 * MANTISSA,
            p >= 1,
    ;
}

fn start_place(d: Double) -> (r: Scale)
    requires
        0 < d.m < 2 * MANTISSA,
        MIN_EXPONENT <= d.e < INFINITE,
    ensures
        r.place() == place_of(d),
        within(r.num@),
        within(r.den@),
        r.below@ >= 0,
        r.above@ > 0,
{
    let below: u32 = if d.m == MANTISSA && d.e > MIN_EXPONENT {
        1
    } else {
        2
    };
    let mut num = Natural::from_u64(4 * d.m);
    let mut below = Natural::small(below);
    let mut above = Natural::small(2);
    let mut den = Natural::small(1);
    if d.e >= 2 {
        let shift = (d.e - 2) as usize;
        num.double(shift);
        below.double(shift);
        above.double(shift);
        proof {
            lemma_within(4 * d.m, d.e - 2);
            lemma_within(1, 0);
            let p = raised(2, d.e - 2);
            assert(1 * p >= 0 && 2 * p > 0);
        }
    } else {
        let shift = (2 - d.e) as usize;
        den.double(shift);
        proof {
            lemma_within(1, 2 - d.e);
            lemma_within(4 * d.m, 0);
            let p = raised(2, 2 - d.e);
            assert(1 * p == p);
            assert((4 * d.m) * 1 == 4 * d.m);
        }
    }
    Scale { num, below, above, den, k: 0 }
}

/// Powers of ten beyond the bound.
proof fn lemma_beyond(j: int)
    requires
        j >= 400,
    ensures
        raised(10, j) >= raised(2, 1200),
{
    lemma_ten_and_two(400);
    lemma_raised_monotone(10, 400, j);
}

fn normalize(s: &mut Scale)
    requires
        old(s).k == 0,
        within(old(s).num@),
        within(old(s).den@),
        old(s).below@ >= 0,
        old(s).above@ > 0,
    ensures
        final(s).place() == lifted(lowered(old(s).place())),
        0 < final(s).num@ < final(s).den@,
        final(s).below@ >= 0,
        final(s).above@ > 0,
        -400 <= final(s).k <= 400,
{
    let ghost start = s.place();
    while s.num.at_least(&s.den)
        invariant
            0 <= s.k <= 400,
            within(s.num@),
            s.below@ >= 0,
            s.above@ > 0,
            s.den@ >= raised(10, s.k as int),
            s.k == 0 ==> within(s.den@),
            s.k > 0 ==> s.den@ <= 10 * s.num@,
            s.den@ > 0,
            lowered(start) == lowered(s.place()),
        decreases 400 - s.k,
    {
        proof {
            if s.k == 400 {
                lemma_beyond(400);
            }
            assert(raised(10, s.k + 1) == 10 * raised(10, s.k as int));
        }
        let ghost before = s.place();
        s.den.mul_add(10, 0);
        s.k = s.k + 1;
        assert(s.place() == (Place { den: before.den * 10, k: before.k + 1, ..before }));
    }
    let ghost low = s.place();
    assert(lowered(start) == low);
    let ghost mut j: int = 0;
    let mut next = s.num.copy();
    next.mul_add(10, 0);
    assert(raised(10, 0) == 1);
    while !next.at_least(&s.den)
        invariant
            next@ == s.num@ * 10,
            0 < s.num@ < s.den@,
            s.den@ == low.den,
            s.below@ >= 0,
            s.above@ > 0,
            0 <= j <= 400,
            s.k == low.k - j,
            0 <= low.k <= 400,
            s.num@ >= raised(10, j),
            low.k == 0 ==> within(low.den),
            low.k > 0 ==> low.den <= 10 * s.num@,
            lifted(low) == lifted(s.place()),
        decreases s.den@ - s.num@,
    {
        proof {
            if j == 400 {
                lemma_beyond(400);
            }
            assert(raised(10, j + 1) == 10 * raised(10, j));
        }
        let ghost before = s.place();
        s.num.mul_add(10, 0);
        s.below.mul_add(10, 0);
        s.above.mul_add(10, 0);
        s.k = s.k - 1;
        next.mul_add(10, 0);
        proof {
            j = j + 1;
            assert(s.place() == (Place {
                num: before.num * 10,
                below: before.below * 10,
                above: before.above * 10,
                k: before.k - 1,
                ..before
            }));
        }
    }
    assert(lifted(low) == s.place());
}

/// The next digit: how often `den` goes into `rest`, which keeps what is left.
fn next_digit(rest: &mut Natural, den: &Natural) -> (digit: u64)
    requires
        den@ > 0,
        0 <= old(rest)@ < 10 * den@,
    ensures
        digit < 10,
        old(rest)@ == digit * den@ + final(rest)@,
        0 <= final(rest)@ < den@,
{
    let ghost start = rest@;
    let mut digit: u64 = 0;
    assert(0 * den@ == 0);
    while rest.at_least(den)
        invariant
            den@ > 0,
            start == digit * den@ + rest@,
            rest@ >= 0,
            start < 10 * den@,
            digit < 10,
        decreases rest@,
    {
        let ghost before = digit as int;
        rest.subtract(den);
        proof {
            let d = den@;
            assert((before + 1) * d == before * d + d) by (nonlinear_arith);
            if before >= 9 {
                assert((before + 1) * d >= 10 * d) by (nonlinear_arith)
                    requires
                        before >= 9,
                        d > 0,
                ;
            }
        }
        digit += 1;
    }
    digit
}

/// What the tests on the digits found say, as comparisons of what is left.
proof fn lemma_tests(p: Place, even: bool, c: int, n: int, rest: int)
    requires
        p.den > 0,
        p.below >= 0,
        p.above > 0,
        0 <= n,
        rest == p.num * raised(10, n) - c * p.den,
        0 <= rest < p.den,
    ensures
        (p.num * raised(10, n)) / p.den == c,
        stands_for(p, even, c, n) == (if even {
            rest <= p.below * raised(10, n)
        } else {
            rest < p.below * raised(10, n)
        }),
        stands_for(p, even, c + 1, n) == (if even {
            p.den - rest <= p.above * raised(10, n)
        } else {
            p.den - rest < p.above * raised(10, n)
        }),
{
    let s = raised(10, n);
    lemma_raised_positive(10, n);
    vstd::arithmetic::div_mod::lemma_fundamental_div_mod_converse(p.num * s, p.den, c, rest);
    assert((p.num - p.below) * s == p.num * s - p.below * s) by (nonlinear_arith);
    assert((p.num + p.above) * s == p.num * s + p.above * s) by (nonlinear_arith);
    assert((c + 1) * p.den == c * p.den + p.den) by (nonlinear_arith);
    assert(p.above * s > 0 && p.below * s >= 0) by (nonlinear_arith)
        requires
            p.above > 0,
            p.below >= 0,
            s >= 1,
    ;
}

/// The shortest number that stands for a double which is not 0, and the place of
/// its decimal point, counted from the number's end.
pub fn shortest_digits(d: Double) -> (r: (u64, i64))
    requires
        0 < d.m < 2 * MANTISSA,
        MIN_EXPONENT <= d.e < INFINITE,
    ensures
        (r.0 as int, r.1 as int) == shortest(d),
        -420 <= r.1 <= 400,
{
    let mut s = start_place(d);
    normalize(&mut s);
    let ghost p = s.place();
    let even = d.m % 2 == 0;
    let Scale { num, below, above, den, k } = s;
    let mut rest = num;
    let mut down_room = below;
    let mut up_room = above;
    let mut c: u64 = 0;
    let mut n: i64 = 0;
    let mut limit: u64 = 1;
    proof {
        assert(raised(10, 0) == 1);
        assert(p.num * 1 == p.num && 0 * p.den == 0);
        assert(p.below * 1 == p.below && p.above * 1 == p.above);
    }
    loop
        invariant
            0 <= n < 17,
            p.den == den@,
            p.den > 0,
            p.below >= 0,
            p.above > 0,
            limit == raised(10, n as int),
            limit <= 10_000_000_000_000_000,
            c < limit,
            rest@ == p.num * raised(10, n as int) - c * p.den,
            0 <= rest@ < p.den,
            down_room@ == p.below * raised(10, n as int),
            up_room@ == p.above * raised(10, n as int),
            shortest_from(p, even, 1) == shortest_from(p, even, n + 1),
            p.k == k,
            -400 <= k <= 400,
            shortest(d) == (shortest_from(p, even, 1).0, p.k - shortest_from(p, even, 1).1),
        decreases 17 - n,
    {
        let ghost (r0, c0, n0) = (rest@, c as int, n as int);
        rest.mul_add(10, 0);
        down_room.mul_add(10, 0);
        up_room.mul_add(10, 0);
        let digit = next_digit(&mut rest, &den);
        c = 10 * c + digit;
        n += 1;
        limit = 10 * limit;
        proof {
            let s0 = raised(10, n0);
            assert(raised(10, n as int) == 10 * s0);
            assert(p.num * (10 * s0) == 10 * (p.num * s0)) by (nonlinear_arith);
            assert(p.below * (10 * s0) == (p.below * s0) * 10) by (nonlinear_arith);
            assert(p.above * (10 * s0) == (p.above * s0) * 10) by (nonlinear_arith);
            assert((10 * c0 + digit) * p.den == 10 * (c0 * p.den) + digit * p.den)
                by (nonlinear_arith);
            lemma_tests(p, even, c as int, n as int, rest@);
        }
        let down = if even {
            down_room.at_least(&rest)
        } else {
            !rest.at_least(&down_room)
        };
        let mut gap = den.copy();
        gap.subtract(&rest);
        let up = if even {
            up_room.at_least(&gap)
        } else {
            !gap.at_least(&up_room)
        };
        if n >= 17 || down || up {
            let nearer_up = rest.at_least(&gap);
            let r = if down && !up {
                c
            } else if up && !down {
                c + 1
            } else if nearer_up {
                c + 1
            } else {
                c
            };
            assert(r == rounded_at(p, even, n as int));
            return (r, k - n);
        }
        proof {
            lemma_limit(n as int);
        }
    }
}

proof fn lemma_limit(n: int)
    requires
        0 <= n < 17,
    ensures
        raised(10, n) <= 10_000_000_000_000_000,
{
    lemma_raised_monotone(10, n, 16);
    reveal_with_fuel(raised, 17);
}

} // verus!
