//! Fixed-point scalars: an `Fx` stores a real quantity as an `i64` count of
//! `1 / FX_ONE` units.  Every operation saturates at the `i64` range and
//! rounds quotients toward zero, and its contract states the result exactly
//! over `int`, so callers reason about plain integer arithmetic.

use vstd::prelude::*;
use vstd::math::abs;
use vstd::arithmetic::div_mod::{
    lemma_div_is_ordered, lemma_div_multiples_vanish, lemma_fundamental_div_mod, lemma_mod_bound,
};

verus! {

/// Number of raw units in one whole unit (the fixed-point scale).
pub const FX_ONE: i64 = 65536;

/// One half at the fixed-point scale.
pub const FX_HALF: i64 = 32768;

/// Largest representable raw value; arithmetic saturates here.
pub const FX_MAX: i64 = 0x7fff_ffff_ffff_ffff;

/// Smallest representable raw value; arithmetic saturates here.
pub const FX_MIN: i64 = -0x7fff_ffff_ffff_ffff - 1;

/// Clamp a mathematical integer into the representable raw range.
pub open spec fn sat64(x: int) -> int {
    if x > FX_MAX {
        FX_MAX as int
    } else if x < FX_MIN {
        FX_MIN as int
    } else {
        x
    }
}

/// Whether a mathematical integer lies inside the raw range, so that
/// `sat64` leaves it unchanged.
pub open spec fn fits(x: int) -> bool {
    FX_MIN <= x <= FX_MAX
}

/// Quotient rounded toward zero, as hardware division rounds;
/// division by zero is defined as zero so every operation is total.
pub open spec fn tdiv(a: int, b: int) -> int {
    if b == 0 {
        0
    } else if (a < 0) == (b < 0) {
        abs(a) as int / abs(b) as int
    } else {
        -(abs(a) as int / abs(b) as int)
    }
}

/// Floor of the square root of a natural number.
pub open spec fn isqrt(n: nat) -> nat
    decreases n,
{
    if n == 0 {
        0
    } else {
        let h = 2 * isqrt(n / 4);
        if (h + 1) * (h + 1) <= n {
            h + 1
        } else {
            h
        }
    }
}

pub proof fn lemma_isqrt_bounds(n: nat)
    ensures
        isqrt(n) * isqrt(n) <= n,
        n < (isqrt(n) + 1) * (isqrt(n) + 1),
    decreases n,
{
    if n == 0 {
        assert(isqrt(n) == 0);
        assert(isqrt(n) * isqrt(n) <= n && n < (isqrt(n) + 1) * (isqrt(n) + 1))
            by (nonlinear_arith)
            requires
                n == 0,
                isqrt(n) == 0,
        ;
    } else {
        lemma_isqrt_bounds(n / 4);
        let h0 = isqrt(n / 4);
        let h = 2 * h0;
        assert(4 * (n / 4) <= n && n <= 4 * (n / 4) + 3) by (nonlinear_arith);
        assert(h * h <= n) by (nonlinear_arith)
            requires
                h == 2 * h0,
                h0 * h0 <= n / 4,
                4 * (n / 4) <= n,
        ;
        assert(n < (h + 2) * (h + 2)) by (nonlinear_arith)
            requires
                h == 2 * h0,
                n <= 4 * (n / 4) + 3,
                n / 4 < (h0 + 1) * (h0 + 1),
        ;
        if (h + 1) * (h + 1) <= n {
            assert(isqrt(n) == h + 1);
            assert(isqrt(n) * isqrt(n) <= n);
            assert(n < (isqrt(n) + 1) * (isqrt(n) + 1));
        } else {
            assert(isqrt(n) == h);
            assert(isqrt(n) * isqrt(n) <= n);
            assert(n < (isqrt(n) + 1) * (isqrt(n) + 1));
        }
    }
}

pub proof fn lemma_isqrt_unique(n: nat, r: nat)
    requires
        r * r <= n,
        n < (r + 1) * (r + 1),
    ensures
        r == isqrt(n),
{
    lemma_isqrt_bounds(n);
    let s = isqrt(n);
    if r < s {
        assert((r + 1) * (r + 1) <= s * s) by (nonlinear_arith)
            requires
                r + 1 <= s,
        ;
        assert(false);
    } else if s < r {
        assert((s + 1) * (s + 1) <= r * r) by (nonlinear_arith)
            requires
                s + 1 <= r,
        ;
        assert(false);
    }
}

/// `tdiv` undoes an exact multiple: `tdiv(q * b, b) == q` whenever `b != 0`.
pub proof fn lemma_tdiv_mul_exact(q: int, b: int)
    requires
        b != 0,
    ensures
        tdiv(q * b, b) == q,
{
    let a = q * b;
    assert(abs(a) == abs(q) * abs(b)) by (nonlinear_arith)
        requires
            a == q * b,
    ;
    lemma_div_multiples_vanish(abs(q) as int, abs(b) as int);
    assert(abs(a) as int / abs(b) as int == abs(q));
    if q == 0 {
        assert(tdiv(a, b) == 0);
    } else {
        assert((a < 0) <==> ((q < 0) != (b < 0))) by (nonlinear_arith)
            requires
                a == q * b,
                q != 0,
                b != 0,
        ;
        if (a < 0) == (b < 0) {
            assert(tdiv(a, b) == abs(q));
            assert(abs(q) == q);
        } else {
            assert(tdiv(a, b) == -(abs(q) as int));
            assert(abs(q) == -q);
        }
    }
}

/// `tdiv` is monotone in the numerator for a positive denominator.
pub proof fn lemma_tdiv_monotone(a1: int, a2: int, b: int)
    requires
        a1 <= a2,
        b > 0,
    ensures
        tdiv(a1, b) <= tdiv(a2, b),
{
    if a1 >= 0 {
        lemma_div_is_ordered(abs(a1) as int, abs(a2) as int, abs(b) as int);
    } else if a2 < 0 {
        lemma_div_is_ordered(abs(a2) as int, abs(a1) as int, abs(b) as int);
    } else {
        assert(tdiv(a1, b) <= 0);
        assert(tdiv(a2, b) >= 0);
    }
}

/// A truncated quotient is bounded by the scaled-down bound of its
/// numerator.
pub proof fn lemma_tdiv_abs_le(a: int, b: int, m: int)
    requires
        b > 0,
        -m <= a <= m,
        m >= 0,
    ensures
        -(m / b) <= tdiv(a, b) <= m / b,
{
    lemma_div_is_ordered(abs(a) as int, m, b);
    assert(abs(a) as int / abs(b) as int == abs(a) as int / b);
}

/// A truncated quotient, scaled back up, lands within one divisor of the
/// numerator.
pub proof fn lemma_tdiv_remainder(a: int, b: int)
    requires
        b > 0,
    ensures
        a - b < b * tdiv(a, b) < a + b,
{
    if a >= 0 {
        lemma_fundamental_div_mod(a, b);
        lemma_mod_bound(a, b);
        assert(b * tdiv(a, b) == a - a % b);
    } else {
        lemma_fundamental_div_mod(-a, b);
        lemma_mod_bound(-a, b);
        assert(b * ((-a) / b) == -a - (-a) % b);
        assert(tdiv(a, b) == -((-a) / b));
        assert(b * tdiv(a, b) == -(b * ((-a) / b))) by (nonlinear_arith)
            requires
                tdiv(a, b) == -((-a) / b),
        ;
        assert(b * tdiv(a, b) == a + (-a) % b);
    }
}

/// Negating the numerator negates the truncated quotient.
pub proof fn lemma_tdiv_neg(a: int, b: int)
    ensures
        tdiv(-a, b) == -tdiv(a, b),
{
    assert(abs(-a) == abs(a));
}

/// The product of two `i64` values stays well inside the `i128` range.
pub proof fn lemma_i64_product_fits(a: int, b: int)
    by (nonlinear_arith)
    requires
        FX_MIN <= a <= FX_MAX,
        FX_MIN <= b <= FX_MAX,
    ensures
        -0x40000000000000000000000000000000 <= a * b <= 0x40000000000000000000000000000000,
{
}

/// A fixed-point scalar: `raw` counts of `1 / FX_ONE`.
#[derive(Clone, Copy, Debug, PartialEq, Eq, Structural)]
pub struct Fx {
    pub raw: i64,
}

impl View for Fx {
    type V = int;

    open spec fn view(&self) -> int {
        self.raw as int
    }
}

pub open spec fn fx_add(a: int, b: int) -> int {
    sat64(a + b)
}

pub open spec fn fx_sub(a: int, b: int) -> int {
    sat64(a - b)
}

pub open spec fn fx_neg(a: int) -> int {
    sat64(-a)
}

pub open spec fn fx_mul(a: int, b: int) -> int {
    sat64(tdiv(a * b, FX_ONE as int))
}

pub open spec fn fx_div(a: int, b: int) -> int {
    sat64(tdiv(a * FX_ONE, b))
}

pub open spec fn fx_div_int(a: int, k: int) -> int {
    sat64(tdiv(a, k))
}

pub open spec fn fx_from_int(i: int) -> int {
    sat64(i * FX_ONE)
}

pub open spec fn fx_sqrt(a: int) -> int {
    if a <= 0 {
        0
    } else {
        isqrt((a * FX_ONE) as nat) as int
    }
}

pub open spec fn fx_abs(a: int) -> int {
    sat64(abs(a) as int)
}

pub open spec fn fx_min(a: int, b: int) -> int {
    if a <= b {
        a
    } else {
        b
    }
}

pub open spec fn fx_max(a: int, b: int) -> int {
    if a >= b {
        a
    } else {
        b
    }
}

/// Clamp an `i128` intermediate into the raw range.
fn sat_from_i128(x: i128) -> (r: i64)
    ensures
        r as int == sat64(x as int),
{
    if x > (FX_MAX as i128) {
        FX_MAX
    } else if x < (FX_MIN as i128) {
        FX_MIN
    } else {
        x as i64
    }
}

/// Truncating division on `i128`, total in the divisor.
fn tdiv_i128(a: i128, b: i128) -> (r: i128)
    requires
        a != i128::MIN,
        b != i128::MIN,
    ensures
        r as int == tdiv(a as int, b as int),
{
    if b == 0 {
        return 0;
    }
    let am: u128 = if a < 0 {
        (-a) as u128
    } else {
        a as u128
    };
    let bm: u128 = if b < 0 {
        (-b) as u128
    } else {
        b as u128
    };
    let q: u128 = am / bm;
    proof {
        lemma_div_is_ordered(0, am as int, bm as int);
        lemma_div_is_ordered_by_denominator_local(am as int, bm as int);
    }
    if (a < 0) != (b < 0) {
        -(q as i128)
    } else {
        q as i128
    }
}

proof fn lemma_div_is_ordered_by_denominator_local(a: int, b: int)
    requires
        a >= 0,
        b >= 1,
    ensures
        a / b <= a,
{
    assert(a <= a * b) by (nonlinear_arith)
        requires
            a >= 0,
            b >= 1,
    ;
    lemma_div_is_ordered(a, a * b, b);
    lemma_div_multiples_vanish(a, b);
    assert((b * a) / b == a);
    assert(b * a == a * b) by (nonlinear_arith);
}

impl Fx {
    pub fn zero() -> (r: Fx)
        ensures
            r@ == 0,
    {
        Fx { raw: 0 }
    }

    pub fn one() -> (r: Fx)
        ensures
            r@ == FX_ONE,
    {
        Fx { raw: FX_ONE }
    }

    pub fn from_int(i: i64) -> (r: Fx)
        ensures
            r@ == fx_from_int(i as int),
    {
        proof {
            lemma_i64_product_fits(i as int, FX_ONE as int);
        }
        Fx { raw: sat_from_i128((i as i128) * (FX_ONE as i128)) }
    }

    /// Build the value `m / 1000`, for writing fractional constants.
    pub fn from_milli(m: i64) -> (r: Fx)
        ensures
            r@ == sat64(tdiv(m * FX_ONE, 1000)),
    {
        proof {
            lemma_i64_product_fits(m as int, FX_ONE as int);
        }
        Fx { raw: sat_from_i128(tdiv_i128((m as i128) * (FX_ONE as i128), 1000)) }
    }

    pub fn add(self, o: Fx) -> (r: Fx)
        ensures
            r@ == fx_add(self@, o@),
    {
        Fx { raw: sat_from_i128((self.raw as i128) + (o.raw as i128)) }
    }

    pub fn sub(self, o: Fx) -> (r: Fx)
        ensures
            r@ == fx_sub(self@, o@),
    {
        Fx { raw: sat_from_i128((self.raw as i128) - (o.raw as i128)) }
    }

    pub fn neg(self) -> (r: Fx)
        ensures
            r@ == fx_neg(self@),
    {
        Fx { raw: sat_from_i128(-(self.raw as i128)) }
    }

    pub fn mul(self, o: Fx) -> (r: Fx)
        ensures
            r@ == fx_mul(self@, o@),
    {
        proof {
            lemma_i64_product_fits(self.raw as int, o.raw as int);
        }
        let p: i128 = (self.raw as i128) * (o.raw as i128);
        Fx { raw: sat_from_i128(tdiv_i128(p, FX_ONE as i128)) }
    }

    pub fn div(self, o: Fx) -> (r: Fx)
        ensures
            r@ == fx_div(self@, o@),
    {
        proof {
            lemma_i64_product_fits(self.raw as int, FX_ONE as int);
        }
        let p: i128 = (self.raw as i128) * (FX_ONE as i128);
        Fx { raw: sat_from_i128(tdiv_i128(p, o.raw as i128)) }
    }

    /// Divide by a plain integer divisor.
    pub fn div_int(self, k: i64) -> (r: Fx)
        ensures
            r@ == fx_div_int(self@, k as int),
    {
        Fx { raw: sat_from_i128(tdiv_i128(self.raw as i128, k as i128)) }
    }

    pub fn sqrt(self) -> (r: Fx)
        ensures
            r@ == fx_sqrt(self@),
    {
        if self.raw <= 0 {
            Fx { raw: 0 }
        } else {
            let n: u128 = (self.raw as u128) * (FX_ONE as u128);
            let s: u64 = isqrt_u128(n);
            proof {
                lemma_isqrt_bounds(n as nat);
                assert(s < 0x10000000000) by (nonlinear_arith)
                    requires
                        (s as nat) * (s as nat) <= n as nat,
                        (n as nat) < 0x100000000000000000000,
                ;
            }
            Fx { raw: s as i64 }
        }
    }

    pub fn abs(self) -> (r: Fx)
        ensures
            r@ == fx_abs(self@),
    {
        if self.raw < 0 {
            self.neg()
        } else {
            self
        }
    }

    pub fn min(self, o: Fx) -> (r: Fx)
        ensures
            r@ == fx_min(self@, o@),
    {
        if self.raw <= o.raw {
            self
        } else {
            o
        }
    }

    pub fn max(self, o: Fx) -> (r: Fx)
        ensures
            r@ == fx_max(self@, o@),
    {
        if self.raw >= o.raw {
            self
        } else {
            o
        }
    }

    pub fn lt(self, o: Fx) -> (r: bool)
        ensures
            r == (self@ < o@),
    {
        self.raw < o.raw
    }

    pub fn le(self, o: Fx) -> (r: bool)
        ensures
            r == (self@ <= o@),
    {
        self.raw <= o.raw
    }

    pub fn gt(self, o: Fx) -> (r: bool)
        ensures
            r == (self@ > o@),
    {
        self.raw > o.raw
    }

    pub fn ge(self, o: Fx) -> (r: bool)
        ensures
            r == (self@ >= o@),
    {
        self.raw >= o.raw
    }

    /// Whole-unit part, truncated toward zero.
    pub fn to_int_trunc(self) -> (r: i64)
        ensures
            r as int == tdiv(self@, FX_ONE as int),
    {
        sat_from_i128(tdiv_i128(self.raw as i128, FX_ONE as i128))
    }
}

/// Floor square root on `u128`, by binary search.
fn isqrt_u128(n: u128) -> (r: u64)
    requires
        n < 0x100000000000000000000,
    ensures
        r as nat == isqrt(n as nat),
{
    let mut lo: u128 = 0;
    let mut hi: u128 = 0x10000000000;
    proof {
        assert((0x10000000000 as int) * (0x10000000000 as int) == 0x100000000000000000000) by (nonlinear_arith);
    }
    while lo + 1 < hi
        invariant
            lo < hi <= 0x10000000000,
            lo * lo <= n,
            (n as int) < hi * hi,
        decreases hi - lo,
    {
        let mid: u128 = lo + (hi - lo) / 2;
        assert(lo < mid < hi) by (nonlinear_arith)
            requires
                mid == lo + (hi - lo) / 2,
                lo + 1 < hi,
        ;
        assert(mid * mid < 0x100000000000000000001) by (nonlinear_arith)
            requires
                mid <= 0x10000000000,
        ;
        let sq: u128 = mid * mid;
        if sq <= n {
            lo = mid;
        } else {
            hi = mid;
        }
    }
    proof {
        assert(hi == lo + 1);
        lemma_isqrt_unique(n as nat, lo as nat);
    }
    lo as u64
}

} // verus!
