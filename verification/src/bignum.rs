//! Natural numbers of any size.

use vstd::prelude::*;

verus! {

// ── Values ───────────────────────────────────────────────────────────────────

/// `b` to the power of `n`.
pub open spec fn raised(b: int, n: int) -> int
    decreases n,
{
    if n <= 0 {
        1
    } else {
        b * raised(b, n - 1)
    }
}

/// The base of the digits of a number.
pub open spec fn base() -> int {
    0x1_0000_0000
}

/// Digit `i`, counted from the lowest; 0 beyond the last.
pub open spec fn limb(v: Seq<u32>, i: int) -> int {
    if 0 <= i < v.len() {
        v[i] as int
    } else {
        0
    }
}

/// The number that the lowest `n` digits write.
pub open spec fn low(v: Seq<u32>, n: int) -> int
    decreases n,
{
    if n <= 0 {
        0
    } else {
        low(v, n - 1) + limb(v, n - 1) * raised(base(), n - 1)
    }
}

proof fn lemma_low_bound(v: Seq<u32>, n: int)
    ensures
        0 <= low(v, n) < raised(base(), n),
        raised(base(), n) > 0,
    decreases n,
{
    if n > 0 {
        lemma_low_bound(v, n - 1);
        let p = raised(base(), n - 1);
        let x = limb(v, n - 1);
        assert(0 <= x * p && x * p + p <= base() * p) by (nonlinear_arith)
            requires
                0 <= x <= base() - 1,
                p > 0,
        ;
    }
}

proof fn lemma_low_beyond(v: Seq<u32>, n: int)
    requires
        n >= v.len(),
    ensures
        low(v, n) == low(v, v.len() as int),
    decreases n,
{
    if n > v.len() {
        lemma_low_beyond(v, n - 1);
        let p = raised(base(), n - 1);
        assert(0 * p == 0);
    }
}

proof fn lemma_low_same(a: Seq<u32>, b: Seq<u32>, n: int)
    requires
        forall|i: int| 0 <= i < n ==> #[trigger] limb(a, i) == limb(b, i),
    ensures
        low(a, n) == low(b, n),
    decreases n,
{
    if n > 0 {
        lemma_low_same(a, b, n - 1);
        assert(limb(a, n - 1) == limb(b, n - 1));
    }
}

/// A natural number.
pub struct Natural {
    limbs: Vec<u32>,
}

impl View for Natural {
    type V = int;

    closed spec fn view(&self) -> int {
        low(self.limbs@, self.limbs@.len() as int)
    }
}

// ── Arithmetic ───────────────────────────────────────────────────────────────

impl Natural {
    /// A small number.
    pub fn small(n: u32) -> (r: Self)
        ensures
            r@ == n,
    {
        let mut limbs: Vec<u32> = Vec::new();
        limbs.push(n);
        proof {
            reveal_with_fuel(low, 2);
            reveal_with_fuel(raised, 2);
        }
        Natural { limbs }
    }

    /// A number of 64 bits.
    pub fn from_u64(n: u64) -> (r: Self)
        ensures
            r@ == n,
    {
        let mut limbs: Vec<u32> = Vec::new();
        limbs.push((n % 0x1_0000_0000) as u32);
        limbs.push((n / 0x1_0000_0000) as u32);
        proof {
            reveal_with_fuel(low, 3);
            assert(raised(base(), 0) == 1);
            assert(raised(base(), 1) == base() * raised(base(), 0));
            assert(limb(limbs@, 0) == n % 0x1_0000_0000);
            assert(limb(limbs@, 1) == n / 0x1_0000_0000);
            assert(low(limbs@, 1) == limb(limbs@, 0) * raised(base(), 0));
            assert(low(limbs@, 2) == low(limbs@, 1) + limb(limbs@, 1) * raised(base(), 1));
            assert(limb(limbs@, 1) * raised(base(), 1) == limb(limbs@, 1) * 0x1_0000_0000);
        }
        Natural { limbs }
    }

    /// Doubles the number `k` times.
    pub fn double(&mut self, k: usize)
        ensures
            final(self)@ == old(self)@ * raised(2, k as int),
    {
        let ghost before = self@;
        let mut i: usize = 0;
        assert(before * 1 == before);
        while i < k
            invariant
                i <= k,
                self@ == before * raised(2, i as int),
            decreases k - i,
        {
            self.mul_add(2, 0);
            proof {
                let p = raised(2, i as int);
                assert(raised(2, i + 1) == 2 * p);
                assert((before * p) * 2 == before * (2 * p)) by (nonlinear_arith);
            }
            i += 1;
        }
    }

    /// Multiplies the number by ten, `k` times.
    pub fn tenfold(&mut self, k: usize)
        ensures
            final(self)@ == old(self)@ * raised(10, k as int),
    {
        let ghost before = self@;
        let mut i: usize = 0;
        assert(before * 1 == before);
        while i < k
            invariant
                i <= k,
                self@ == before * raised(10, i as int),
            decreases k - i,
        {
            self.mul_add(10, 0);
            proof {
                let p = raised(10, i as int);
                assert(raised(10, i + 1) == 10 * p);
                assert((before * p) * 10 == before * (10 * p)) by (nonlinear_arith);
            }
            i += 1;
        }
    }

    /// No number is negative.
    pub proof fn lemma_natural(&self)
        ensures
            self@ >= 0,
    {
        lemma_low_bound(self.limbs@, self.limbs@.len() as int);
    }

    /// A copy.
    pub fn copy(&self) -> (r: Self)
        ensures
            r@ == self@,
    {
        let mut limbs: Vec<u32> = Vec::new();
        let mut i: usize = 0;
        while i < self.limbs.len()
            invariant
                i <= self.limbs.len(),
                limbs@ =~= self.limbs@.take(i as int),
            decreases self.limbs.len() - i,
        {
            limbs.push(self.limbs[i]);
            i += 1;
        }
        assert(limbs@ =~= self.limbs@);
        Natural { limbs }
    }

    /// Multiplies by `k` and adds `a`.
    pub fn mul_add(&mut self, k: u32, a: u32)
        ensures
            final(self)@ == old(self)@ * k + a,
    {
        let ghost before = self.limbs@;
        let n = self.limbs.len();
        let mut carry: u32 = a;
        let mut i: usize = 0;
        proof {
            assert(raised(base(), 0) == 1);
            assert(low(before, 0) * k == 0);
        }
        while i < n
            invariant
                i <= n,
                n == before.len(),
                self.limbs.len() == n,
                forall|j: int| i <= j < n ==> #[trigger] self.limbs@[j] == before[j],
                low(self.limbs@, i as int) + carry * raised(base(), i as int) == low(
                    before,
                    i as int,
                ) * k + a,
            decreases n - i,
        {
            let x = self.limbs[i];
            assert(x * k + carry <= 0xffff_ffff_ffff_ffff) by (nonlinear_arith)
                requires
                    0 <= x <= 0xffff_ffff,
                    0 <= k <= 0xffff_ffff,
                    0 <= carry <= 0xffff_ffff,
            ;
            assert(0 <= x * k) by (nonlinear_arith)
                requires
                    0 <= x,
                    0 <= k,
            ;
            let t: u64 = x as u64 * k as u64 + carry as u64;
            let digit = (t % 0x1_0000_0000) as u32;
            let next = (t / 0x1_0000_0000) as u32;
            let ghost old_limbs = self.limbs@;
            self.limbs.set(i, digit);
            proof {
                lemma_low_same(old_limbs, self.limbs@, i as int);
                let p = raised(base(), i as int);
                assert(t == next * base() + digit);
                lemma_mul_add_step(
                    low(self.limbs@, i as int),
                    low(before, i as int),
                    p,
                    x as int,
                    k as int,
                    a as int,
                    carry as int,
                    digit as int,
                    next as int,
                );
                assert(raised(base(), i + 1) == base() * p);
                assert(limb(before, i as int) == x);
                assert(limb(self.limbs@, i as int) == digit);
            }
            carry = next;
            i += 1;
        }
        let ghost done = self.limbs@;
        self.limbs.push(carry);
        proof {
            lemma_low_same(done, self.limbs@, n as int);
            assert(limb(self.limbs@, n as int) == carry);
        }
    }

    /// Whether the number is at least `other`.
    pub fn at_least(&self, other: &Natural) -> (r: bool)
        ensures
            r == (self@ >= other@),
    {
        let (a, b) = (&self.limbs, &other.limbs);
        let n = if a.len() < b.len() {
            b.len()
        } else {
            a.len()
        };
        let mut r = true;
        let mut i: usize = 0;
        while i < n
            invariant
                i <= n,
                n >= a.len(),
                n >= b.len(),
                r == (low(a@, i as int) >= low(b@, i as int)),
            decreases n - i,
        {
            let x: u32 = if i < a.len() {
                a[i]
            } else {
                0
            };
            let y: u32 = if i < b.len() {
                b[i]
            } else {
                0
            };
            proof {
                lemma_low_bound(a@, i as int);
                lemma_low_bound(b@, i as int);
                let p = raised(base(), i as int);
                if x > y {
                    assert(x * p >= y * p + p) by (nonlinear_arith)
                        requires
                            x >= y + 1,
                            p > 0,
                    ;
                } else if x < y {
                    assert(y * p >= x * p + p) by (nonlinear_arith)
                        requires
                            y >= x + 1,
                            p > 0,
                    ;
                }
            }
            if x > y {
                r = true;
            } else if x < y {
                r = false;
            }
            i += 1;
        }
        proof {
            lemma_low_beyond(a@, n as int);
            lemma_low_beyond(b@, n as int);
        }
        r
    }

    /// Subtracts `other`, which is not greater.
    pub fn subtract(&mut self, other: &Natural)
        requires
            old(self)@ >= other@,
        ensures
            final(self)@ == old(self)@ - other@,
    {
        let ghost before = self.limbs@;
        let b = &other.limbs;
        while self.limbs.len() < b.len()
            invariant
                forall|j: int| #[trigger] limb(self.limbs@, j) == limb(before, j),
                before.len() <= self.limbs.len(),
            decreases b.len() - self.limbs.len(),
        {
            let ghost shorter = self.limbs@;
            self.limbs.push(0);
            assert forall|j: int| #[trigger] limb(self.limbs@, j) == limb(before, j) by {
                assert(limb(shorter, j) == limb(before, j));
            }
        }
        let n = self.limbs.len();
        let ghost wide = self.limbs@;
        let mut borrow: u32 = 0;
        let mut i: usize = 0;
        while i < n
            invariant
                i <= n,
                n == wide.len(),
                self.limbs.len() == n,
                borrow <= 1,
                forall|j: int| i <= j < n ==> #[trigger] self.limbs@[j] == wide[j],
                low(self.limbs@, i as int) - borrow * raised(base(), i as int) == low(
                    wide,
                    i as int,
                ) - low(b@, i as int),
            decreases n - i,
        {
            let x = self.limbs[i] as i64;
            let y: i64 = if i < b.len() {
                b[i] as i64
            } else {
                0
            };
            let t: i64 = x - y - borrow as i64;
            let ghost old_limbs = self.limbs@;
            let next: u32 = if t < 0 {
                1
            } else {
                0
            };
            let digit: u32 = if t < 0 {
                (t + 0x1_0000_0000) as u32
            } else {
                t as u32
            };
            self.limbs.set(i, digit);
            proof {
                lemma_low_same(old_limbs, self.limbs@, i as int);
                let p = raised(base(), i as int);
                assert(t == digit - next * base());
                lemma_subtract_step(
                    low(self.limbs@, i as int),
                    low(wide, i as int),
                    low(b@, i as int),
                    p,
                    x as int,
                    y as int,
                    borrow as int,
                    digit as int,
                    next as int,
                );
                assert(raised(base(), i + 1) == base() * p);
                assert(limb(wide, i as int) == x);
                assert(limb(b@, i as int) == y);
                assert(limb(self.limbs@, i as int) == digit);
            }
            borrow = next;
            i += 1;
        }
        proof {
            lemma_low_same(before, wide, n as int);
            lemma_low_beyond(before, n as int);
            lemma_low_beyond(b@, n as int);
            lemma_low_bound(self.limbs@, n as int);
            let p = raised(base(), n as int);
            if borrow == 1 {
                assert(1 * p == p);
            }
            assert(0 * p == 0);
        }
    }
}

proof fn lemma_mul_add_step(
    done: int,
    before: int,
    p: int,
    x: int,
    k: int,
    a: int,
    carry: int,
    digit: int,
    next: int,
)
    requires
        done + carry * p == before * k + a,
        x * k + carry == next * base() + digit,
    ensures
        done + digit * p + next * (base() * p) == (before + x * p) * k + a,
{
    assert((x * k + carry) * p == (next * base() + digit) * p);
    assert((x * k + carry) * p == (x * p) * k + carry * p) by (nonlinear_arith);
    assert((next * base() + digit) * p == next * (base() * p) + digit * p) by (nonlinear_arith);
    assert((before + x * p) * k == before * k + (x * p) * k) by (nonlinear_arith);
}

proof fn lemma_subtract_step(
    done: int,
    a: int,
    b: int,
    p: int,
    x: int,
    y: int,
    borrow: int,
    digit: int,
    next: int,
)
    requires
        done - borrow * p == a - b,
        x - y - borrow == digit - next * base(),
    ensures
        done + digit * p - next * (base() * p) == a + x * p - (b + y * p),
{
    assert((x - y - borrow) * p == (digit - next * base()) * p);
    assert((x - y - borrow) * p == x * p - y * p - borrow * p) by (nonlinear_arith);
    assert((digit - next * base()) * p == digit * p - next * (base() * p)) by (nonlinear_arith);
}

// ── Powers ───────────────────────────────────────────────────────────────────

/// Powers of the same base multiply by adding exponents.
pub proof fn lemma_raised_add(b: int, m: int, n: int)
    requires
        0 <= m,
        0 <= n,
    ensures
        raised(b, m + n) == raised(b, m) * raised(b, n),
    decreases m,
{
    if m > 0 {
        lemma_raised_add(b, m - 1, n);
        assert(b * (raised(b, m - 1) * raised(b, n)) == (b * raised(b, m - 1)) * raised(b, n))
            by (nonlinear_arith);
    }
}

/// Powers are positive.
pub proof fn lemma_raised_positive(b: int, n: int)
    requires
        b >= 1,
    ensures
        raised(b, n) >= 1,
    decreases n,
{
    if n > 0 {
        lemma_raised_positive(b, n - 1);
        assert(b * raised(b, n - 1) >= 1) by (nonlinear_arith)
            requires
                b >= 1,
                raised(b, n - 1) >= 1,
        ;
    }
}

/// A power of ten exceeds the power of two with three times its exponent.
pub proof fn lemma_ten_and_two(n: int)
    requires
        0 <= n,
    ensures
        raised(10, n) >= raised(2, 3 * n),
        raised(2, 3 * n) >= 1,
    decreases n,
{
    lemma_raised_positive(2, 3 * n);
    if n > 0 {
        lemma_ten_and_two(n - 1);
        lemma_raised_add(2, 3, 3 * (n - 1));
        reveal_with_fuel(raised, 4);
        assert(3 + 3 * (n - 1) == 3 * n);
    }
}

/// Greater exponents give greater powers.
pub proof fn lemma_raised_monotone(b: int, m: int, n: int)
    requires
        b >= 1,
        m <= n,
    ensures
        raised(b, m) <= raised(b, n),
    decreases n - m,
{
    if m < n {
        lemma_raised_monotone(b, m, n - 1);
        lemma_raised_positive(b, n - 1);
        if n > 0 {
            assert(b * raised(b, n - 1) >= raised(b, n - 1)) by (nonlinear_arith)
                requires
                    b >= 1,
                    raised(b, n - 1) >= 1,
            ;
        }
    }
}

} // verus!
