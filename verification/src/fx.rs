//! Fixed-point scalar arithmetic with 16 fractional bits.
//!
//! A scalar value `v` is stored as the integer `raw == v * SCALE`.
//! Multiplication, division and square root truncate toward zero; every
//! executable operation is specified exactly by the spec functions below.

use vstd::prelude::*;
use vstd::arithmetic::div_mod::{
    lemma_div_is_ordered, lemma_div_nonincreasing, lemma_div_pos_is_pos,
};

verus! {

/// Scale factor of the fixed-point representation (2^16).
pub const SCALE: i64 = 65536;

/// Largest magnitude admitted in an i64-valued result.
pub const RAW_MAX: i64 = 0x7fff_ffff_ffff_ffff;

pub(crate) const MAG_126: i128 = 0x4000_0000_0000_0000_0000_0000_0000_0000;

/// Magnitude (absolute value) of an integer.
pub open spec fn mag(a: int) -> int {
    if a < 0 {
        -a
    } else {
        a
    }
}

/// Division truncating toward zero: the rounding every fixed-point
/// operation of this crate uses.
pub open spec fn tdiv(a: int, b: int) -> int
    recommends
        b != 0,
{
    if (a < 0) != (b < 0) {
        -(mag(a) / mag(b))
    } else {
        mag(a) / mag(b)
    }
}

/// Fixed-point product: (a * b) / SCALE, truncated toward zero.
pub open spec fn smul(a: int, b: int) -> int {
    tdiv(a * b, SCALE as int)
}

/// Fixed-point quotient: (a * SCALE) / b, truncated toward zero.
pub open spec fn sdiv(a: int, b: int) -> int
    recommends
        b != 0,
{
    tdiv(a * (SCALE as int), b)
}

/// `r` is the integer square root of `n`, rounded down.
pub open spec fn is_sqrt_floor(n: int, r: int) -> bool {
    0 <= r && r * r <= n && n < (r + 1) * (r + 1)
}

/// The integer square root of `n`, rounded down (meaningful for `n >= 0`).
pub open spec fn sqrt_floor(n: int) -> int {
    choose|r: int| is_sqrt_floor(n, r)
}

/// Fixed-point square root: for a raw value `a`, sqrt(a / SCALE) in fixed
/// point is the integer square root of `a * SCALE`.
pub open spec fn ssqrt(a: int) -> int
    recommends
        a >= 0,
{
    sqrt_floor(a * (SCALE as int))
}

pub proof fn lemma_sqrt_floor_exists(n: int)
    requires
        n >= 0,
    ensures
        is_sqrt_floor(n, sqrt_floor(n)),
    decreases n,
{
    if n == 0 {
        assert(is_sqrt_floor(0, 0));
    } else {
        lemma_sqrt_floor_exists(n - 1);
        let r: int = sqrt_floor(n - 1);
        if n < (r + 1) * (r + 1) {
            assert(is_sqrt_floor(n, r));
        } else {
            assert(n == (r + 1) * (r + 1));
            assert(n < (r + 2) * (r + 2)) by (nonlinear_arith)
                requires
                    n == (r + 1) * (r + 1),
                    r >= 0,
            ;
            assert(is_sqrt_floor(n, r + 1));
        }
    }
}

pub proof fn lemma_sqrt_floor_unique(n: int, r: int)
    requires
        n >= 0,
        is_sqrt_floor(n, r),
    ensures
        r == sqrt_floor(n),
{
    let r2: int = sqrt_floor(n);
    assert(is_sqrt_floor(n, r2));
    if r < r2 {
        assert((r + 1) * (r + 1) <= r2 * r2) by (nonlinear_arith)
            requires
                0 <= r,
                r + 1 <= r2,
        ;
        assert(false);
    }
    if r2 < r {
        assert((r2 + 1) * (r2 + 1) <= r * r) by (nonlinear_arith)
            requires
                0 <= r2,
                r2 + 1 <= r,
        ;
        assert(false);
    }
}

/// The magnitude of a truncating quotient is the quotient of magnitudes.
pub proof fn lemma_tdiv_mag(a: int, b: int)
    requires
        b != 0,
    ensures
        mag(tdiv(a, b)) == mag(a) / mag(b),
{
    lemma_div_pos_is_pos(mag(a), mag(b));
}

/// A truncating quotient never exceeds the dividend's magnitude bound.
pub proof fn lemma_tdiv_bound(a: int, b: int, bd: int)
    requires
        b != 0,
        mag(a) <= bd,
    ensures
        mag(tdiv(a, b)) <= bd / mag(b) <= bd,
{
    lemma_tdiv_mag(a, b);
    lemma_div_is_ordered(mag(a), bd, mag(b));
    lemma_div_nonincreasing(bd, mag(b));
}

/// Truncating division by a positive divisor is monotone in the dividend.
pub proof fn lemma_tdiv_mono(a1: int, a2: int, b: int)
    requires
        a1 <= a2,
        b >= 1,
    ensures
        tdiv(a1, b) <= tdiv(a2, b),
{
    if 0 <= a1 {
        lemma_div_is_ordered(a1, a2, b);
    } else if a2 < 0 {
        lemma_div_is_ordered(-a2, -a1, b);
    } else {
        lemma_div_pos_is_pos(-a1, b);
        lemma_div_pos_is_pos(a2, b);
    }
}

/// Negating the dividend negates the truncating quotient.
pub proof fn lemma_tdiv_neg(a: int, b: int)
    requires
        b != 0,
    ensures
        tdiv(-a, b) == -tdiv(a, b),
{
    assert(mag(-a) == mag(a));
}

/// A bound on the fixed-point product from bounds on the factors.
pub proof fn lemma_smul_bound(a: int, b: int, ba: int, bb: int)
    requires
        mag(a) <= ba,
        mag(b) <= bb,
    ensures
        mag(smul(a, b)) <= (ba * bb) / (SCALE as int) <= ba * bb,
{
    assert(-(ba * bb) <= a * b && a * b <= ba * bb) by (nonlinear_arith)
        requires
            -ba <= a <= ba,
            -bb <= b <= bb,
            0 <= ba,
            0 <= bb,
    ;
    lemma_tdiv_bound(a * b, SCALE as int, ba * bb);
}

/// Pins a division down from an exact quotient and remainder; handy
/// for evaluating fixed-point expressions on concrete values.
pub proof fn lemma_div_exact(n: int, d: int, q: int, rem: int)
    requires
        d > 0,
        0 <= rem < d,
        n == q * d + rem,
    ensures
        n / d == q,
{
    vstd::arithmetic::div_mod::lemma_fundamental_div_mod_converse_div(n, d, q, rem);
}

/// A bound on a product from bounds on the factors.
pub proof fn lemma_mul_bound(a: int, b: int, ba: int, bb: int)
    requires
        mag(a) <= ba,
        mag(b) <= bb,
    ensures
        mag(a * b) <= ba * bb,
{
    assert(-(ba * bb) <= a * b && a * b <= ba * bb) by (nonlinear_arith)
        requires
            -ba <= a <= ba,
            -bb <= b <= bb,
            0 <= ba,
            0 <= bb,
    ;
}

/// Division truncating toward zero on 128-bit operands.
pub(crate) fn tdiv_i128(a: i128, b: i128) -> (r: i128)
    requires
        b != 0,
        -(MAG_126 as int) <= a <= MAG_126 as int,
        -(MAG_126 as int) <= b <= MAG_126 as int,
    ensures
        r == tdiv(a as int, b as int),
{
    let neg: bool = (a < 0) != (b < 0);
    let ma: u128 = if a < 0 {
        (-a) as u128
    } else {
        a as u128
    };
    let mb: u128 = if b < 0 {
        (-b) as u128
    } else {
        b as u128
    };
    proof {
        assert(ma == mag(a as int));
        assert(mb == mag(b as int));
    }
    let q: u128 = ma / mb;
    proof {
        lemma_div_nonincreasing(ma as int, mb as int);
        lemma_div_pos_is_pos(ma as int, mb as int);
    }
    if neg {
        -(q as i128)
    } else {
        q as i128
    }
}

/// Integer square root, rounded down.
pub(crate) fn isqrt_u128(n: u128) -> (r: u64)
    ensures
        r == sqrt_floor(n as int),
        is_sqrt_floor(n as int, r as int),
{
    let mut lo: u128 = 0;
    let mut hi: u128 = 0x1_0000_0000_0000_0000;
    proof {
        assert((0x1_0000_0000_0000_0000 as int) * (0x1_0000_0000_0000_0000 as int) == 0x1_0000_0000_0000_0000_0000_0000_0000_0000
        ) by (nonlinear_arith);
    }
    while lo + 1 < hi
        invariant
            lo < hi,
            hi <= 0x1_0000_0000_0000_0000,
            (lo as int) * (lo as int) <= n as int,
            (n as int) < (hi as int) * (hi as int),
        decreases hi - lo,
    {
        let mid: u128 = lo + (hi - lo) / 2;
        proof {
            assert(lo < mid && mid < hi);
            assert((mid as int) * (mid as int) <= 0xffff_ffff_ffff_ffff_fffe_0000_0000_0001
            ) by (nonlinear_arith)
                requires
                    0 <= mid as int <= 0xffff_ffff_ffff_ffff,
            ;
        }
        let sq: u128 = mid * mid;
        if sq <= n {
            lo = mid;
        } else {
            hi = mid;
        }
    }
    proof {
        assert(is_sqrt_floor(n as int, lo as int));
        lemma_sqrt_floor_unique(n as int, lo as int);
    }
    lo as u64
}

/// A fixed-point scalar: the value `raw / SCALE`.
#[derive(Clone, Copy, Debug, PartialEq, Eq, Structural)]
pub struct Fx {
    pub raw: i64,
}

impl View for Fx {
    type V = int;

    open spec fn view(&self) -> int {
        self.raw as int
    }
}

impl Fx {
    /// The scalar with the given raw (scaled) representation.
    pub fn from_raw(raw: i64) -> (r: Fx)
        ensures
            r@ == raw as int,
    {
        Fx { raw }
    }

    /// The scalar equal to the integer `n`.
    pub fn from_int(n: i32) -> (r: Fx)
        ensures
            r@ == n * (SCALE as int),
    {
        Fx { raw: (n as i64) * SCALE }
    }

    pub fn add(self, o: Fx) -> (r: Fx)
        requires
            mag(self@ + o@) <= RAW_MAX as int,
        ensures
            r@ == self@ + o@,
    {
        Fx { raw: self.raw + o.raw }
    }

    pub fn sub(self, o: Fx) -> (r: Fx)
        requires
            mag(self@ - o@) <= RAW_MAX as int,
        ensures
            r@ == self@ - o@,
    {
        Fx { raw: self.raw - o.raw }
    }

    pub fn neg(self) -> (r: Fx)
        requires
            mag(self@) <= RAW_MAX as int,
        ensures
            r@ == -self@,
    {
        Fx { raw: -self.raw }
    }

    pub fn mul(self, o: Fx) -> (r: Fx)
        requires
            mag(smul(self@, o@)) <= RAW_MAX as int,
        ensures
            r@ == smul(self@, o@),
    {
        proof {
            assert(-(MAG_126 as int) <= (self.raw as int) * (o.raw as int)
                <= MAG_126 as int) by (nonlinear_arith)
                requires
                    -0x8000_0000_0000_0000 <= self.raw as int <= 0x7fff_ffff_ffff_ffff,
                    -0x8000_0000_0000_0000 <= o.raw as int <= 0x7fff_ffff_ffff_ffff,
            ;
        }
        let p: i128 = (self.raw as i128) * (o.raw as i128);
        let q: i128 = tdiv_i128(p, SCALE as i128);
        proof {
            lemma_tdiv_mag(p as int, SCALE as int);
        }
        Fx { raw: q as i64 }
    }

    pub fn div(self, o: Fx) -> (r: Fx)
        requires
            o@ != 0,
            mag(sdiv(self@, o@)) <= RAW_MAX as int,
        ensures
            r@ == sdiv(self@, o@),
    {
        let p: i128 = (self.raw as i128) * (SCALE as i128);
        let q: i128 = tdiv_i128(p, o.raw as i128);
        proof {
            lemma_tdiv_mag(p as int, o.raw as int);
        }
        Fx { raw: q as i64 }
    }

    /// Square root, rounded down; meaningful for non-negative scalars.
    pub fn sqrt(self) -> (r: Fx)
        requires
            self@ >= 0,
        ensures
            r@ == ssqrt(self@),
            r@ >= 0,
    {
        let n: u128 = (self.raw as u128) * (SCALE as u128);
        let s: u64 = isqrt_u128(n);
        proof {
            lemma_sqrt_floor_unique(n as int, s as int);
            assert((s as int) * (s as int) <= n as int);
            assert(s as int <= 0x7fff_ffff_ffff_ffff) by (nonlinear_arith)
                requires
                    0 <= s as int,
                    (s as int) * (s as int) <= n as int,
                    n as int <= 0x7fff_ffff_ffff_ffff_0000,
            ;
        }
        Fx { raw: s as i64 }
    }

    pub fn lt(self, o: Fx) -> (b: bool)
        ensures
            b == (self@ < o@),
    {
        self.raw < o.raw
    }

    pub fn le(self, o: Fx) -> (b: bool)
        ensures
            b == (self@ <= o@),
    {
        self.raw <= o.raw
    }
}

} // verus!
