//! 3D vectors over fixed-point scalars: arithmetic, dot and cross
//! products, length and normalization, each specified exactly against the
//! mathematical model `V3`.

use vstd::prelude::*;
use vstd::arithmetic::div_mod::{
    lemma_mod_division_less_than_divisor,
    lemma_basic_div, lemma_div_is_ordered, lemma_div_multiples_vanish, lemma_div_pos_is_pos,
    lemma_fundamental_div_mod,
};
use crate::fx::{
    Fx, SCALE, RAW_MAX, mag, tdiv, smul, sdiv, ssqrt, sqrt_floor, tdiv_i128,
    lemma_sqrt_floor_exists, lemma_smul_bound, lemma_tdiv_bound, lemma_tdiv_mag,
};

verus! {

/// Component bound under which dot and cross products cannot overflow.
pub const DOT_RANGE: i64 = 0x40_0000_0000;

/// Bound on each component of a normalized vector (five units).
pub const NORM_RANGE: i64 = 0x50000;

/// The mathematical model of a vector: three unbounded raw components.
pub ghost struct V3 {
    pub x: int,
    pub y: int,
    pub z: int,
}

pub open spec fn vadd(a: V3, b: V3) -> V3 {
    V3 { x: a.x + b.x, y: a.y + b.y, z: a.z + b.z }
}

pub open spec fn vsub(a: V3, b: V3) -> V3 {
    V3 { x: a.x - b.x, y: a.y - b.y, z: a.z - b.z }
}

/// Component-wise product.
pub open spec fn vcmul(a: V3, b: V3) -> V3 {
    V3 { x: smul(a.x, b.x), y: smul(a.y, b.y), z: smul(a.z, b.z) }
}

/// Vector times scalar (scalar on the right).
pub open spec fn vscale(v: V3, t: int) -> V3 {
    V3 { x: smul(v.x, t), y: smul(v.y, t), z: smul(v.z, t) }
}

/// Scalar times vector (scalar on the left).
pub open spec fn vscale_l(t: int, v: V3) -> V3 {
    V3 { x: smul(t, v.x), y: smul(t, v.y), z: smul(t, v.z) }
}

/// Vector divided by a scalar.
pub open spec fn vdiv(v: V3, t: int) -> V3
    recommends
        t != 0,
{
    V3 { x: sdiv(v.x, t), y: sdiv(v.y, t), z: sdiv(v.z, t) }
}

/// Dot product: the component products are summed exactly, then scaled
/// back with a single truncating division.
pub open spec fn vdot(a: V3, b: V3) -> int {
    tdiv(a.x * b.x + a.y * b.y + a.z * b.z, SCALE as int)
}

/// Cross product; each component uses a single truncating division.
pub open spec fn vcross(a: V3, b: V3) -> V3 {
    V3 {
        x: tdiv(a.y * b.z - a.z * b.y, SCALE as int),
        y: tdiv(a.z * b.x - a.x * b.z, SCALE as int),
        z: tdiv(a.x * b.y - a.y * b.x, SCALE as int),
    }
}

pub open spec fn vlen_sq(v: V3) -> int {
    vdot(v, v)
}

pub open spec fn vlen(v: V3) -> int {
    ssqrt(vlen_sq(v))
}

/// The unit vector of `v`: `v` divided by its length (meaningful when
/// the squared length is non-zero).
pub open spec fn vnorm(v: V3) -> V3
    recommends
        vlen_sq(v) >= 1,
{
    vdiv(v, vlen(v))
}

/// Every component has magnitude at most `b`.
pub open spec fn in_range(v: V3, b: int) -> bool {
    mag(v.x) <= b && mag(v.y) <= b && mag(v.z) <= b
}

/// Every component fits in a raw scalar.
pub open spec fn fits(v: V3) -> bool {
    in_range(v, RAW_MAX as int)
}

/// A 3D point or direction with fixed-point components.
#[derive(Clone, Copy, Debug, PartialEq, Eq, Structural)]
pub struct Vec3 {
    pub x: Fx,
    pub y: Fx,
    pub z: Fx,
}

impl View for Vec3 {
    type V = V3;

    open spec fn view(&self) -> V3 {
        V3 { x: self.x.raw as int, y: self.y.raw as int, z: self.z.raw as int }
    }
}

impl Vec3 {
    pub fn new(x: Fx, y: Fx, z: Fx) -> (r: Vec3)
        ensures
            r@ == (V3 { x: x@, y: y@, z: z@ }),
    {
        Vec3 { x, y, z }
    }

    /// The zero vector.
    pub fn zero() -> (r: Vec3)
        ensures
            r@ == (V3 { x: 0, y: 0, z: 0 }),
    {
        Vec3 { x: Fx { raw: 0 }, y: Fx { raw: 0 }, z: Fx { raw: 0 } }
    }

    /// The y component.
    pub fn y(&self) -> (r: Fx)
        ensures
            r@ == self@.y,
    {
        self.y
    }

    pub fn add(self, other: Vec3) -> (r: Vec3)
        requires
            fits(vadd(self@, other@)),
        ensures
            r@ == vadd(self@, other@),
    {
        Vec3 { x: self.x.add(other.x), y: self.y.add(other.y), z: self.z.add(other.z) }
    }

    pub fn sub(self, other: Vec3) -> (r: Vec3)
        requires
            fits(vsub(self@, other@)),
        ensures
            r@ == vsub(self@, other@),
    {
        Vec3 { x: self.x.sub(other.x), y: self.y.sub(other.y), z: self.z.sub(other.z) }
    }

    /// Component-wise product of two vectors.
    pub fn mul(self, other: Vec3) -> (r: Vec3)
        requires
            fits(vcmul(self@, other@)),
        ensures
            r@ == vcmul(self@, other@),
    {
        Vec3 { x: self.x.mul(other.x), y: self.y.mul(other.y), z: self.z.mul(other.z) }
    }

    /// This vector scaled by `t` (scalar on the right).
    pub fn scale(self, t: Fx) -> (r: Vec3)
        requires
            fits(vscale(self@, t@)),
        ensures
            r@ == vscale(self@, t@),
    {
        Vec3 { x: self.x.mul(t), y: self.y.mul(t), z: self.z.mul(t) }
    }

    /// This vector divided by the scalar `t`.
    pub fn div(self, t: Fx) -> (r: Vec3)
        requires
            t@ != 0,
            fits(vdiv(self@, t@)),
        ensures
            r@ == vdiv(self@, t@),
    {
        Vec3 { x: self.x.div(t), y: self.y.div(t), z: self.z.div(t) }
    }

    pub fn add_assign(&mut self, other: Vec3)
        requires
            fits(vadd(old(self)@, other@)),
        ensures
            final(self)@ == vadd(old(self)@, other@),
    {
        *self = (*self).add(other);
    }

    pub fn sub_assign(&mut self, other: Vec3)
        requires
            fits(vsub(old(self)@, other@)),
        ensures
            final(self)@ == vsub(old(self)@, other@),
    {
        *self = (*self).sub(other);
    }

    pub fn dot(&self, other: Vec3) -> (r: Fx)
        requires
            in_range(self@, DOT_RANGE as int),
            in_range(other@, DOT_RANGE as int),
        ensures
            r@ == vdot(self@, other@),
    {
        proof {
            lemma_prod_range(self.x.raw as int, other.x.raw as int);
            lemma_prod_range(self.y.raw as int, other.y.raw as int);
            lemma_prod_range(self.z.raw as int, other.z.raw as int);
        }
        let p: i128 = (self.x.raw as i128) * (other.x.raw as i128)
            + (self.y.raw as i128) * (other.y.raw as i128)
            + (self.z.raw as i128) * (other.z.raw as i128);
        let q: i128 = tdiv_i128(p, SCALE as i128);
        proof {
            lemma_tdiv_bound(p as int, SCALE as int, 0x3000_0000_0000_0000_0000);
        }
        Fx { raw: q as i64 }
    }

    pub fn cross(&self, other: Vec3) -> (r: Vec3)
        requires
            in_range(self@, DOT_RANGE as int),
            in_range(other@, DOT_RANGE as int),
        ensures
            r@ == vcross(self@, other@),
    {
        Vec3 {
            x: cross_term(self.y, other.z, self.z, other.y),
            y: cross_term(self.z, other.x, self.x, other.z),
            z: cross_term(self.x, other.y, self.y, other.x),
        }
    }

    /// The squared length; always non-negative.
    pub fn length_squared(&self) -> (r: Fx)
        requires
            in_range(self@, DOT_RANGE as int),
        ensures
            r@ == vlen_sq(self@),
            r@ >= 0,
    {
        proof {
            lemma_vlen_sq_nonneg(self@);
        }
        self.dot(*self)
    }

    /// The length: the square root of the squared length, rounded down.
    pub fn length(&self) -> (r: Fx)
        requires
            in_range(self@, DOT_RANGE as int),
        ensures
            r@ == vlen(self@),
            r@ >= 0,
    {
        let ls: Fx = self.length_squared();
        ls.sqrt()
    }

    /// The unit vector pointing the same way as this vector.
    ///
    /// A vector whose squared length rounds to zero (shorter than 1/256
    /// of a unit) has no usable direction here, just as the zero vector
    /// has none in exact arithmetic; such vectors are excluded.
    pub fn normalized(&self) -> (r: Vec3)
        requires
            in_range(self@, DOT_RANGE as int),
            vlen_sq(self@) >= 1,
        ensures
            r@ == vnorm(self@),
    {
        let len: Fx = self.length();
        proof {
            lemma_vlen_pos(self@);
            lemma_tdiv_bound(
                (self.x.raw as int) * (SCALE as int),
                len@,
                0x40_0000_0000_0000,
            );
            lemma_tdiv_bound(
                (self.y.raw as int) * (SCALE as int),
                len@,
                0x40_0000_0000_0000,
            );
            lemma_tdiv_bound(
                (self.z.raw as int) * (SCALE as int),
                len@,
                0x40_0000_0000_0000,
            );
        }
        self.div(len)
    }
}

impl Fx {
    /// This scalar times a vector (scalar on the left).
    pub fn scale_vec(self, v: Vec3) -> (r: Vec3)
        requires
            fits(vscale_l(self@, v@)),
        ensures
            r@ == vscale_l(self@, v@),
    {
        Vec3 { x: self.mul(v.x), y: self.mul(v.y), z: self.mul(v.z) }
    }
}

/// One cross-product component: (a*b - c*d) / SCALE.
fn cross_term(a: Fx, b: Fx, c: Fx, d: Fx) -> (r: Fx)
    requires
        mag(a@) <= DOT_RANGE as int,
        mag(b@) <= DOT_RANGE as int,
        mag(c@) <= DOT_RANGE as int,
        mag(d@) <= DOT_RANGE as int,
    ensures
        r@ == tdiv(a@ * b@ - c@ * d@, SCALE as int),
{
    proof {
        lemma_prod_range(a.raw as int, b.raw as int);
        lemma_prod_range(c.raw as int, d.raw as int);
    }
    let p: i128 = (a.raw as i128) * (b.raw as i128) - (c.raw as i128) * (d.raw as i128);
    let q: i128 = tdiv_i128(p, SCALE as i128);
    proof {
        lemma_tdiv_bound(p as int, SCALE as int, 0x2000_0000_0000_0000_0000);
    }
    Fx { raw: q as i64 }
}

/// Products of components within `DOT_RANGE` stay within 2^76.
proof fn lemma_prod_range(a: int, b: int)
    requires
        mag(a) <= DOT_RANGE as int,
        mag(b) <= DOT_RANGE as int,
    ensures
        -0x1000_0000_0000_0000_0000 <= a * b <= 0x1000_0000_0000_0000_0000,
{
    assert(-0x1000_0000_0000_0000_0000 <= a * b <= 0x1000_0000_0000_0000_0000)
        by (nonlinear_arith)
        requires
            -0x40_0000_0000 <= a <= 0x40_0000_0000,
            -0x40_0000_0000 <= b <= 0x40_0000_0000,
    ;
}

/// A squared length is never negative.
pub proof fn lemma_vlen_sq_nonneg(v: V3)
    ensures
        vlen_sq(v) >= 0,
{
    assert(v.x * v.x + v.y * v.y + v.z * v.z >= 0) by (nonlinear_arith);
    lemma_div_pos_is_pos(v.x * v.x + v.y * v.y + v.z * v.z, SCALE as int);
}

/// A vector of squared length at least one has length at least 256 raw.
pub proof fn lemma_vlen_pos(v: V3)
    requires
        vlen_sq(v) >= 1,
    ensures
        vlen(v) >= 256,
{
    lemma_vlen_sq_nonneg(v);
    lemma_sqrt_floor_exists(vlen_sq(v) * (SCALE as int));
    let len: int = vlen(v);
    assert(vlen_sq(v) * (SCALE as int) >= 65536) by (nonlinear_arith)
        requires
            vlen_sq(v) >= 1,
    ;
    assert(len >= 256) by (nonlinear_arith)
        requires
            len >= 0,
            (len + 1) * (len + 1) > 65536,
    ;
}

/// A bound on the dot product from a shared bound on the components.
pub proof fn lemma_vdot_bound(a: V3, b: V3, bd: int)
    requires
        in_range(a, bd),
        in_range(b, bd),
    ensures
        mag(vdot(a, b)) <= (3 * bd * bd) / (SCALE as int),
{
    let p: int = a.x * b.x + a.y * b.y + a.z * b.z;
    assert(-(3 * bd * bd) <= p <= 3 * bd * bd) by (nonlinear_arith)
        requires
            -bd <= a.x <= bd,
            -bd <= a.y <= bd,
            -bd <= a.z <= bd,
            -bd <= b.x <= bd,
            -bd <= b.y <= bd,
            -bd <= b.z <= bd,
            0 <= bd,
            p == a.x * b.x + a.y * b.y + a.z * b.z,
    ;
    lemma_tdiv_mag(p, SCALE as int);
    lemma_div_is_ordered(mag(p), 3 * bd * bd, SCALE as int);
}

/// A bound on the cross product from a shared bound on the components.
pub proof fn lemma_vcross_bound(a: V3, b: V3, bd: int)
    requires
        in_range(a, bd),
        in_range(b, bd),
    ensures
        in_range(vcross(a, b), (2 * bd * bd) / (SCALE as int)),
{
    lemma_vcross_bound_comp(a.y, b.z, a.z, b.y, bd);
    lemma_vcross_bound_comp(a.z, b.x, a.x, b.z, bd);
    lemma_vcross_bound_comp(a.x, b.y, a.y, b.x, bd);
}

proof fn lemma_vcross_bound_comp(a: int, b: int, c: int, d: int, bd: int)
    requires
        mag(a) <= bd,
        mag(b) <= bd,
        mag(c) <= bd,
        mag(d) <= bd,
    ensures
        mag(tdiv(a * b - c * d, SCALE as int)) <= (2 * bd * bd) / (SCALE as int),
{
    assert(-(2 * bd * bd) <= a * b - c * d <= 2 * bd * bd) by (nonlinear_arith)
        requires
            -bd <= a <= bd,
            -bd <= b <= bd,
            -bd <= c <= bd,
            -bd <= d <= bd,
            0 <= bd,
    ;
    lemma_tdiv_mag(a * b - c * d, SCALE as int);
    lemma_div_is_ordered(mag(a * b - c * d), 2 * bd * bd, SCALE as int);
}

/// A bound on a scaled vector from bounds on the parts.
pub proof fn lemma_vscale_bound(v: V3, t: int, bv: int, bt: int)
    requires
        in_range(v, bv),
        mag(t) <= bt,
    ensures
        in_range(vscale(v, t), (bv * bt) / (SCALE as int)),
{
    lemma_smul_bound(v.x, t, bv, bt);
    lemma_smul_bound(v.y, t, bv, bt);
    lemma_smul_bound(v.z, t, bv, bt);
}

/// Scaling law: a scalar multiplies a vector the same way from either
/// side; scalar-on-left and scalar-on-right agree on every component.
pub proof fn lemma_scale_commutes(v: V3, t: int)
    ensures
        vscale(v, t) == vscale_l(t, v),
{
    assert(v.x * t == t * v.x) by (nonlinear_arith);
    assert(v.y * t == t * v.y) by (nonlinear_arith);
    assert(v.z * t == t * v.z) by (nonlinear_arith);
}

/// Each component of a normalized vector is at most five units in
/// magnitude, whatever the input vector.
pub proof fn lemma_norm_range(v: V3)
    requires
        vlen_sq(v) >= 1,
        in_range(v, DOT_RANGE as int),
    ensures
        in_range(vnorm(v), NORM_RANGE as int),
{
    let s: int = SCALE as int;
    let sum: int = v.x * v.x + v.y * v.y + v.z * v.z;
    assert(v.x * v.x <= sum && v.y * v.y <= sum && v.z * v.z <= sum && sum >= 0)
        by (nonlinear_arith)
        requires
            sum == v.x * v.x + v.y * v.y + v.z * v.z,
    ;
    assert(vlen_sq(v) == sum / s) by {
        lemma_div_pos_is_pos(sum, s);
    }
    if sum < s {
        lemma_basic_div(sum, s);
        assert(false);
    }
    lemma_norm_comp(v.x, sum);
    lemma_norm_comp(v.y, sum);
    lemma_norm_comp(v.z, sum);
}

/// Truncating division leaves a remainder smaller than the divisor and
/// of the dividend's sign.
proof fn lemma_trunc_rem(a: int, b: int)
    requires
        b >= 1,
    ensures
        mag(a - tdiv(a, b) * b) <= b - 1,
        a * (a - tdiv(a, b) * b) >= 0,
{
    if a >= 0 {
        lemma_fundamental_div_mod(a, b);
        lemma_mod_division_less_than_divisor(a, b);
        let r: int = a % b;
        assert(b * (a / b) == (a / b) * b) by (nonlinear_arith);
        assert(a - tdiv(a, b) * b == r);
        assert(a * r >= 0) by (nonlinear_arith)
            requires
                a >= 0,
                r >= 0,
        ;
    } else {
        lemma_fundamental_div_mod(-a, b);
        lemma_mod_division_less_than_divisor(-a, b);
        let r: int = (-a) % b;
        assert(tdiv(a, b) == -((-a) / b));
        assert((-((-a) / b)) * b == -(b * ((-a) / b))) by (nonlinear_arith);
        assert(a - tdiv(a, b) * b == -r);
        assert(a * (-r) >= 0) by (nonlinear_arith)
            requires
                a < 0,
                r >= 0,
        ;
    }
}

/// Sign and size facts about one normalization remainder.
proof fn lemma_norm_rem_facts(vi: int, ei: int, ll: int, s: int)
    requires
        s == 65536,
        ll >= 1,
        mag(ei) <= ll - 1,
        (vi * s) * ei >= 0,
    ensures
        vi * ei >= 0,
        vi * ei <= mag(vi) * ll,
        0 <= ei * ei <= ll * ll,
{
    assert(vi * ei >= 0) by (nonlinear_arith)
        requires
            (vi * s) * ei >= 0,
            s == 65536,
    ;
    assert(vi * ei <= mag(vi) * ll) by (nonlinear_arith)
        requires
            vi * ei >= 0,
            mag(ei) <= ll - 1,
            ll >= 1,
            (mag(vi) == vi || mag(vi) == -vi),
            (mag(ei) == ei || mag(ei) == -ei),
    ;
    assert(0 <= ei * ei <= ll * ll) by (nonlinear_arith)
        requires
            mag(ei) <= ll - 1,
            ll >= 1,
            (mag(ei) == ei || mag(ei) == -ei),
    ;
}

/// One component of the normalized vector, squared and scaled back:
/// the exact square of the remainder identity.
proof fn lemma_norm_sq_expand(vi: int, ni: int, ei: int, ll: int, s: int)
    requires
        ni * ll == vi * s - ei,
    ensures
        ll * ll * (ni * ni) == s * s * (vi * vi) - 2 * s * (vi * ei) + ei * ei,
{
    assert(ll * ll * (ni * ni) == (ni * ll) * (ni * ll)) by (nonlinear_arith);
    assert((ni * ll) * (ni * ll) == s * s * (vi * vi) - 2 * s * (vi * ei) + ei * ei)
        by (nonlinear_arith)
        requires
            ni * ll == vi * s - ei,
    ;
}

/// Normalization law: normalizing a vector at least one unit long
/// yields a vector whose length is one, up to sixteen raw parts in
/// 65536 (a relative error under 0.00025). Shorter vectors carry too
/// little squared-length precision for the bound and are excluded,
/// as the zero vector is in exact arithmetic.
pub proof fn lemma_normalized_length(v: V3)
    requires
        vlen_sq(v) >= SCALE as int,
    ensures
        (SCALE as int) - 16 <= vlen(vnorm(v)) <= (SCALE as int) + 16,
{
    let s: int = SCALE as int;
    let sum: int = v.x * v.x + v.y * v.y + v.z * v.z;
    assert(v.x * v.x >= 0 && v.y * v.y >= 0 && v.z * v.z >= 0) by (nonlinear_arith);
    lemma_div_pos_is_pos(sum, s);
    assert(vlen_sq(v) == sum / s);
    let ls: int = sum / s;
    lemma_fundamental_div_mod(sum, s);
    assert(s * ls == ls * s) by (nonlinear_arith);
    lemma_mod_division_less_than_divisor(sum, s);
    // the length: at least one unit, and its square at most `sum`
    lemma_sqrt_floor_exists(ls * s);
    let ll: int = vlen(v);
    assert(ls * s >= s * s) by (nonlinear_arith)
        requires
            ls >= s,
            s == 65536,
    ;
    assert(ll >= s) by (nonlinear_arith)
        requires
            ll >= 0,
            (ll + 1) * (ll + 1) > s * s,
            s == 65536,
    ;
    assert(s * ls <= sum);
    assert(ls * s <= sum);
    assert(ll * ll <= sum);
    assert(sum < ls * s + s);
    assert(sum <= ll * ll + 2 * ll + s) by (nonlinear_arith)
        requires
            sum < ls * s + s,
            ls * s < (ll + 1) * (ll + 1),
    ;
    // the normalized components and their truncation remainders
    let nx: int = sdiv(v.x, ll);
    let ny: int = sdiv(v.y, ll);
    let nz: int = sdiv(v.z, ll);
    lemma_trunc_rem(v.x * s, ll);
    lemma_trunc_rem(v.y * s, ll);
    lemma_trunc_rem(v.z * s, ll);
    let ex: int = v.x * s - nx * ll;
    let ey: int = v.y * s - ny * ll;
    let ez: int = v.z * s - nz * ll;
    // remainder signs and sizes, one component at a time
    lemma_norm_rem_facts(v.x, ex, ll, s);
    lemma_norm_rem_facts(v.y, ey, ll, s);
    lemma_norm_rem_facts(v.z, ez, ll, s);
    // the magnitude sum A, with A^2 <= 3 * sum and A <= 2 * ll
    let aa: int = mag(v.x) + mag(v.y) + mag(v.z);
    assert(aa * aa <= 3 * sum) by (nonlinear_arith)
        requires
            sum == v.x * v.x + v.y * v.y + v.z * v.z,
            aa == mag(v.x) + mag(v.y) + mag(v.z),
            (mag(v.x) == v.x || mag(v.x) == -v.x),
            (mag(v.y) == v.y || mag(v.y) == -v.y),
            (mag(v.z) == v.z || mag(v.z) == -v.z),
    ;
    assert(aa <= 2 * ll) by (nonlinear_arith)
        requires
            aa >= 0,
            aa * aa <= 3 * sum,
            sum <= ll * ll + 2 * ll + s,
            ll >= s,
            s == 65536,
    ;
    // the squared length of the normalized vector, expanded exactly
    let sn: int = nx * nx + ny * ny + nz * nz;
    lemma_norm_sq_expand(v.x, nx, ex, ll, s);
    lemma_norm_sq_expand(v.y, ny, ey, ll, s);
    lemma_norm_sq_expand(v.z, nz, ez, ll, s);
    assert(ll * ll * sn == ll * ll * (nx * nx) + ll * ll * (ny * ny) + ll * ll * (nz * nz))
        by (nonlinear_arith)
        requires
            sn == nx * nx + ny * ny + nz * nz,
    ;
    assert(s * s * sum == s * s * (v.x * v.x) + s * s * (v.y * v.y) + s * s * (v.z * v.z))
        by (nonlinear_arith)
        requires
            sum == v.x * v.x + v.y * v.y + v.z * v.z,
    ;
    // bounded both ways: the cross terms do not hurt the upper side,
    // and are at most ll * aa on the lower side
    assert(ll * ll * sn <= s * s * sum + 3 * (ll * ll)) by (nonlinear_arith)
        requires
            ll * ll * sn == ll * ll * (nx * nx) + ll * ll * (ny * ny) + ll * ll * (nz * nz),
            ll * ll * (nx * nx) == s * s * (v.x * v.x) - 2 * s * (v.x * ex) + ex * ex,
            ll * ll * (ny * ny) == s * s * (v.y * v.y) - 2 * s * (v.y * ey) + ey * ey,
            ll * ll * (nz * nz) == s * s * (v.z * v.z) - 2 * s * (v.z * ez) + ez * ez,
            s * s * sum == s * s * (v.x * v.x) + s * s * (v.y * v.y) + s * s * (v.z * v.z),
            v.x * ex >= 0,
            v.y * ey >= 0,
            v.z * ez >= 0,
            ex * ex <= ll * ll,
            ey * ey <= ll * ll,
            ez * ez <= ll * ll,
            s == 65536,
    ;
    assert(v.x * ex + v.y * ey + v.z * ez <= ll * aa) by (nonlinear_arith)
        requires
            v.x * ex <= mag(v.x) * ll,
            v.y * ey <= mag(v.y) * ll,
            v.z * ez <= mag(v.z) * ll,
            aa == mag(v.x) + mag(v.y) + mag(v.z),
    ;
    assert(ll * ll * sn >= s * s * sum - 2 * s * (v.x * ex + v.y * ey + v.z * ez))
        by (nonlinear_arith)
        requires
            ll * ll * sn == ll * ll * (nx * nx) + ll * ll * (ny * ny) + ll * ll * (nz * nz),
            ll * ll * (nx * nx) == s * s * (v.x * v.x) - 2 * s * (v.x * ex) + ex * ex,
            ll * ll * (ny * ny) == s * s * (v.y * v.y) - 2 * s * (v.y * ey) + ey * ey,
            ll * ll * (nz * nz) == s * s * (v.z * v.z) - 2 * s * (v.z * ez) + ez * ez,
            s * s * sum == s * s * (v.x * v.x) + s * s * (v.y * v.y) + s * s * (v.z * v.z),
            ex * ex >= 0,
            ey * ey >= 0,
            ez * ez >= 0,
    ;
    assert(ll * ll * sn >= s * s * sum - 2 * s * (ll * aa)) by (nonlinear_arith)
        requires
            ll * ll * sn >= s * s * sum - 2 * s * (v.x * ex + v.y * ey + v.z * ez),
            v.x * ex + v.y * ey + v.z * ez <= ll * aa,
            s == 65536,
    ;
    // squeeze the squared length between its two polynomial bounds
    assert(sn < s * s + 34 * s + 288) by (nonlinear_arith)
        requires
            ll * ll * sn <= s * s * sum + 3 * (ll * ll),
            sum <= ll * ll + 2 * ll + s,
            ll >= s,
            s == 65536,
    ;
    assert(sn >= s * s - 31 * s + 256) by (nonlinear_arith)
        requires
            ll * ll * sn >= s * s * sum - 2 * s * (ll * aa),
            sum >= ll * ll,
            aa <= 2 * ll,
            aa >= 0,
            ll >= s,
            s == 65536,
    ;
    // carry the bounds through the final squared-length and square root
    assert(sn >= 0) by (nonlinear_arith)
        requires
            sn == nx * nx + ny * ny + nz * nz,
    ;
    assert(vlen_sq(vnorm(v)) == sn / s) by {
        lemma_div_pos_is_pos(sn, s);
    }
    let ls2: int = sn / s;
    lemma_fundamental_div_mod(sn, s);
    lemma_mod_division_less_than_divisor(sn, s);
    assert(s * ls2 == ls2 * s) by (nonlinear_arith);
    lemma_div_pos_is_pos(sn, s);
    lemma_sqrt_floor_exists(ls2 * s);
    let lln: int = vlen(vnorm(v));
    assert(ls2 * s <= sn);
    assert(ls2 * s > sn - s);
    assert(lln <= s + 16) by (nonlinear_arith)
        requires
            lln >= 0,
            lln * lln <= ls2 * s,
            ls2 * s <= sn,
            sn < s * s + 34 * s + 288,
            s == 65536,
    ;
    assert(lln >= s - 16) by (nonlinear_arith)
        requires
            lln >= 0,
            (lln + 1) * (lln + 1) > ls2 * s,
            ls2 * s > sn - s,
            sn >= s * s - 31 * s + 256,
            s == 65536,
    ;
}

/// Core of the normalization bound, one component at a time.
proof fn lemma_norm_comp(c: int, sum: int)
    requires
        c * c <= sum,
        sum >= SCALE as int,
    ensures
        mag(sdiv(c, sqrt_floor((sum / (SCALE as int)) * (SCALE as int)))) <= NORM_RANGE as int,
{
    let s: int = SCALE as int;
    let ls: int = sum / s;
    let len: int = sqrt_floor(ls * s);
    lemma_div_pos_is_pos(sum, s);
    lemma_sqrt_floor_exists(ls * s);
    lemma_fundamental_div_mod(sum, s);
    // ls * s is within s of sum
    assert(s * ls == ls * s) by (nonlinear_arith);
    assert(ls * s > sum - s);
    // len is at least 256
    lemma_div_is_ordered(s, sum, s);
    lemma_div_multiples_vanish(1, s);
    assert(ls >= 1);
    assert(ls * s >= s) by (nonlinear_arith)
        requires
            ls >= 1,
            s == 65536,
    ;
    assert(len >= 256) by (nonlinear_arith)
        requires
            len >= 0,
            (len + 1) * (len + 1) > 65536,
    ;
    let m: int = mag(c);
    assert(m == c || m == -c);
    assert(m * m == c * c) by (nonlinear_arith)
        requires
            m == c || m == -c,
    ;
    // the component magnitude is below 4 * len + 4
    assert(m < 4 * (len + 1)) by (nonlinear_arith)
        requires
            0 <= m,
            256 <= len,
            m * m <= sum,
            sum - s < ls * s,
            ls * s < (len + 1) * (len + 1),
            s == 65536,
    ;
    // hence m * s <= 5 * s * len, and the quotient is at most 5 * s
    assert(m * s <= len * (5 * s)) by (nonlinear_arith)
        requires
            m <= 4 * len + 3,
            256 <= len,
            s == 65536,
    ;
    lemma_tdiv_mag(c * s, len);
    assert(mag(c * s) == m * s) by (nonlinear_arith)
        requires
            m == mag(c),
            s == 65536,
    ;
    lemma_div_is_ordered(m * s, len * (5 * s), len);
    lemma_div_multiples_vanish(5 * s, len);
    assert((len * (5 * s)) / len == 5 * s);
}

} // verus!
