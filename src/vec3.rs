//! Three-dimensional vectors over fixed-point scalars.
use vstd::prelude::*;
use crate::fixed::{
    div_floor, div_trunc, floor_sqrt, isqrt, lemma_mul_abs, lemma_trunc_div_bound, lemma_trunc_div_neg, trunc_div,
    COORD_MAX, ONE,
};

verus! {

/// A raw coordinate that a point or a vector can hold.
pub open spec fn fits(c: int) -> bool {
    -COORD_MAX <= c <= COORD_MAX
}

/// Magnitude below which a component counts as zero (raw units).
pub const NEAR_ZERO_EPS: i64 = 1;

#[derive(Debug, Copy, Clone, PartialEq, Eq, Structural)]
pub struct Vec3 {
    pub x: i64,
    pub y: i64,
    pub z: i64,
}

/// The exact dot product of the raw components (scaled by `ONE * ONE`).
pub open spec fn dot_raw(u: Vec3, v: Vec3) -> int {
    u.x * v.x + u.y * v.y + u.z * v.z
}

/// The squared length of the raw components (scaled by `ONE * ONE`).
pub open spec fn norm2(v: Vec3) -> int {
    dot_raw(v, v)
}

/// A fixed-point product `t * c`, rounded down.
pub open spec fn fmul(t: int, c: int) -> int {
    (t * c) / (ONE as int)
}

/// A fixed-point quotient `c / t`, rounded down.
pub open spec fn fdiv(c: int, t: int) -> int {
    if t > 0 {
        (c * ONE) / t
    } else {
        (-c * ONE) / (-t)
    }
}

/// The unit vector along `v`, each component rounded down.
pub open spec fn normalize_spec(v: Vec3) -> Vec3 {
    let len = floor_sqrt(norm2(v));
    Vec3 {
        x: fdiv(v.x as int, len) as i64,
        y: fdiv(v.y as int, len) as i64,
        z: fdiv(v.z as int, len) as i64,
    }
}

/// Mirror image of `v` about a surface with normal `n`: `v - 2 (v . n) n`.
pub open spec fn reflect_spec(v: Vec3, n: Vec3) -> Vec3 {
    let k = dot_raw(v, n) / (ONE as int);
    Vec3 {
        x: (v.x - fmul(2 * k, n.x as int)) as i64,
        y: (v.y - fmul(2 * k, n.y as int)) as i64,
        z: (v.z - fmul(2 * k, n.z as int)) as i64,
    }
}

proof fn lemma_abs_le_sqrt(c: int, n: int)
    requires
        0 <= c * c <= n,
    ensures
        -floor_sqrt(n) <= c <= floor_sqrt(n),
{
    let s = floor_sqrt(n);
    assert(crate::fixed::is_floor_sqrt(n, s)) by {
        let w = crate::fixed::floor_sqrt_witness(n);
    }
    if c > s {
        assert((s + 1) * (s + 1) <= c * c) by (nonlinear_arith)
            requires
                0 <= s,
                s + 1 <= c,
        ;
    }
    if c < -s {
        assert((s + 1) * (s + 1) <= c * c) by (nonlinear_arith)
            requires
                0 <= s,
                c <= -s - 1,
        ;
    }
}

impl Vec3 {
    /// Every component is a coordinate that a vector can hold.
    pub open spec fn wf(&self) -> bool {
        fits(self.x as int) && fits(self.y as int) && fits(self.z as int)
    }

    /// Some component is not zero.
    pub open spec fn nonzero(&self) -> bool {
        self.x != 0 || self.y != 0 || self.z != 0
    }

    pub fn new(e0: i64, e1: i64, e2: i64) -> (r: Vec3)
        ensures
            r == (Vec3 { x: e0, y: e1, z: e2 }),
    {
        Vec3 { x: e0, y: e1, z: e2 }
    }

    pub fn x(&self) -> (r: i64)
        ensures
            r == self.x,
    {
        self.x
    }

    pub fn y(&self) -> (r: i64)
        ensures
            r == self.y,
    {
        self.y
    }

    pub fn z(&self) -> (r: i64)
        ensures
            r == self.z,
    {
        self.z
    }

    /// The component of index `i` (0, 1, 2 for x, y, z).
    pub fn get_unchecked(&self, i: usize) -> (r: i64)
        requires
            i < 3,
        ensures
            i == 0 ==> r == self.x,
            i == 1 ==> r == self.y,
            i == 2 ==> r == self.z,
    {
        if i == 0 {
            self.x
        } else if i == 1 {
            self.y
        } else {
            self.z
        }
    }

    /// Squared length, in fixed point.
    pub fn length_squared(&self) -> (r: i64)
        requires
            self.wf(),
        ensures
            r == norm2(*self) / (ONE as int),
    {
        proof {
            lemma_norm2_bound(*self);
        }
        let n = self.norm2_exec();
        div_floor(n as i128, ONE as i128) as i64
    }

    /// Exact squared length of the raw components.
    pub fn norm2_exec(&self) -> (r: i128)
        requires
            self.wf(),
        ensures
            r == norm2(*self),
            0 <= r <= 3 * (COORD_MAX as int) * (COORD_MAX as int),
    {
        proof {
            lemma_norm2_bound(*self);
            lemma_mul_abs(self.x as int, self.x as int, COORD_MAX as int, COORD_MAX as int);
            lemma_mul_abs(self.y as int, self.y as int, COORD_MAX as int, COORD_MAX as int);
            lemma_mul_abs(self.z as int, self.z as int, COORD_MAX as int, COORD_MAX as int);
        }
        let (x, y, z) = (self.x as i128, self.y as i128, self.z as i128);
        x * x + y * y + z * z
    }

    /// Length, in fixed point: the square root of the raw squared length.
    pub fn length(&self) -> (r: i64)
        requires
            self.wf(),
        ensures
            r == floor_sqrt(norm2(*self)),
            0 <= r < 0x8000_0000,
            self.nonzero() ==> r > 0,
    {
        let n = self.norm2_exec();
        let s = isqrt(n as u128);
        proof {
            if self.nonzero() {
                assert(norm2(*self) >= 1) by (nonlinear_arith)
                    requires
                        self.x != 0 || self.y != 0 || self.z != 0,
                        norm2(*self) == self.x * self.x + self.y * self.y + self.z * self.z,
                ;
                if s == 0 {
                    assert(false);
                }
            }
            assert(s * s <= n);
            assert(s < 0x8000_0000) by (nonlinear_arith)
                requires
                    s * s <= n,
                    n <= 3 * (COORD_MAX as int) * (COORD_MAX as int),
                    COORD_MAX == 0x4000_0000,
            ;
        }
        s as i64
    }

    /// The unit vector in the direction of `self`.
    pub fn normalize(&self) -> (r: Vec3)
        requires
            self.wf(),
            self.nonzero(),
        ensures
            r == normalize_spec(*self),
            -ONE <= r.x <= ONE,
            -ONE <= r.y <= ONE,
            -ONE <= r.z <= ONE,
            r.wf(),
    {
        let len = self.length();
        proof {
            lemma_norm2_bound(*self);
            assert(self.x * self.x <= norm2(*self)) by (nonlinear_arith)
                requires norm2(*self) == self.x * self.x + self.y * self.y + self.z * self.z;
            assert(self.y * self.y <= norm2(*self)) by (nonlinear_arith)
                requires norm2(*self) == self.x * self.x + self.y * self.y + self.z * self.z;
            assert(self.z * self.z <= norm2(*self)) by (nonlinear_arith)
                requires norm2(*self) == self.x * self.x + self.y * self.y + self.z * self.z;
            assert(0 <= self.x * self.x) by (nonlinear_arith);
            assert(0 <= self.y * self.y) by (nonlinear_arith);
            assert(0 <= self.z * self.z) by (nonlinear_arith);
            lemma_abs_le_sqrt(self.x as int, norm2(*self));
            lemma_abs_le_sqrt(self.y as int, norm2(*self));
            lemma_abs_le_sqrt(self.z as int, norm2(*self));
        }
        let x = div_unit(self.x, len);
        let y = div_unit(self.y, len);
        let z = div_unit(self.z, len);
        Vec3 { x, y, z }
    }

    /// True iff every component is smaller in magnitude than `NEAR_ZERO_EPS`.
    pub fn near_zero(&self) -> (r: bool)
        ensures
            r == (-NEAR_ZERO_EPS < self.x < NEAR_ZERO_EPS && -NEAR_ZERO_EPS < self.y
                < NEAR_ZERO_EPS && -NEAR_ZERO_EPS < self.z < NEAR_ZERO_EPS),
    {
        -NEAR_ZERO_EPS < self.x && self.x < NEAR_ZERO_EPS && -NEAR_ZERO_EPS < self.y && self.y
            < NEAR_ZERO_EPS && -NEAR_ZERO_EPS < self.z && self.z < NEAR_ZERO_EPS
    }

    pub fn neg(self) -> (r: Vec3)
        requires
            self.wf(),
        ensures
            r == (Vec3 { x: -self.x as i64, y: -self.y as i64, z: -self.z as i64 }),
            r.wf(),
    {
        Vec3 { x: -self.x, y: -self.y, z: -self.z }
    }

    pub fn add(self, o: Vec3) -> (r: Vec3)
        requires
            fits(self.x + o.x),
            fits(self.y + o.y),
            fits(self.z + o.z),
        ensures
            r == (Vec3 {
                x: (self.x + o.x) as i64,
                y: (self.y + o.y) as i64,
                z: (self.z + o.z) as i64,
            }),
            r.wf(),
    {
        Vec3 { x: self.x + o.x, y: self.y + o.y, z: self.z + o.z }
    }

    pub fn sub(self, o: Vec3) -> (r: Vec3)
        requires
            fits(self.x - o.x),
            fits(self.y - o.y),
            fits(self.z - o.z),
        ensures
            r == (Vec3 {
                x: (self.x - o.x) as i64,
                y: (self.y - o.y) as i64,
                z: (self.z - o.z) as i64,
            }),
            r.wf(),
    {
        Vec3 { x: self.x - o.x, y: self.y - o.y, z: self.z - o.z }
    }

    /// Adds `o` in place.
    pub fn add_assign(&mut self, o: Vec3)
        requires
            fits(old(self).x + o.x),
            fits(old(self).y + o.y),
            fits(old(self).z + o.z),
        ensures
            *final(self) == (Vec3 {
                x: (old(self).x + o.x) as i64,
                y: (old(self).y + o.y) as i64,
                z: (old(self).z + o.z) as i64,
            }),
    {
        self.x = self.x + o.x;
        self.y = self.y + o.y;
        self.z = self.z + o.z;
    }

    /// Scales by the fixed-point scalar `t` in place.
    pub fn mul_assign(&mut self, t: i64)
        requires
            old(self).wf(),
            fits(t as int),
            fits(fmul(t as int, old(self).x as int)),
            fits(fmul(t as int, old(self).y as int)),
            fits(fmul(t as int, old(self).z as int)),
        ensures
            *final(self) == (Vec3 {
                x: fmul(t as int, old(self).x as int) as i64,
                y: fmul(t as int, old(self).y as int) as i64,
                z: fmul(t as int, old(self).z as int) as i64,
            }),
    {
        *self = self.scale(t);
    }

    /// Divides by the fixed-point scalar `t` in place.
    pub fn div_assign(&mut self, t: i64)
        requires
            old(self).wf(),
            t != 0,
            fits(t as int),
            fits(fdiv(old(self).x as int, t as int)),
            fits(fdiv(old(self).y as int, t as int)),
            fits(fdiv(old(self).z as int, t as int)),
        ensures
            *final(self) == (Vec3 {
                x: fdiv(old(self).x as int, t as int) as i64,
                y: fdiv(old(self).y as int, t as int) as i64,
                z: fdiv(old(self).z as int, t as int) as i64,
            }),
    {
        *self = self.div(t);
    }

    /// Component-wise product, in fixed point.
    pub fn mul(self, o: Vec3) -> (r: Vec3)
        requires
            self.wf(),
            o.wf(),
            fits(fmul(self.x as int, o.x as int)),
            fits(fmul(self.y as int, o.y as int)),
            fits(fmul(self.z as int, o.z as int)),
        ensures
            r == (Vec3 {
                x: fmul(self.x as int, o.x as int) as i64,
                y: fmul(self.y as int, o.y as int) as i64,
                z: fmul(self.z as int, o.z as int) as i64,
            }),
            r.wf(),
    {
        let x = mul_fixed(self.x, o.x);
        let y = mul_fixed(self.y, o.y);
        let z = mul_fixed(self.z, o.z);
        Vec3 { x, y, z }
    }

    /// The vector scaled by the fixed-point scalar `t`.
    pub fn scale(self, t: i64) -> (r: Vec3)
        requires
            self.wf(),
            fits(t as int),
            fits(fmul(t as int, self.x as int)),
            fits(fmul(t as int, self.y as int)),
            fits(fmul(t as int, self.z as int)),
        ensures
            r == (Vec3 {
                x: fmul(t as int, self.x as int) as i64,
                y: fmul(t as int, self.y as int) as i64,
                z: fmul(t as int, self.z as int) as i64,
            }),
            r.wf(),
    {
        let x = mul_fixed(t, self.x);
        let y = mul_fixed(t, self.y);
        let z = mul_fixed(t, self.z);
        Vec3 { x, y, z }
    }

    /// The vector divided by the fixed-point scalar `t`.
    pub fn div(self, t: i64) -> (r: Vec3)
        requires
            self.wf(),
            t != 0,
            fits(t as int),
            fits(fdiv(self.x as int, t as int)),
            fits(fdiv(self.y as int, t as int)),
            fits(fdiv(self.z as int, t as int)),
        ensures
            r == (Vec3 {
                x: fdiv(self.x as int, t as int) as i64,
                y: fdiv(self.y as int, t as int) as i64,
                z: fdiv(self.z as int, t as int) as i64,
            }),
            r.wf(),
    {
        let x = div_fixed(self.x, t);
        let y = div_fixed(self.y, t);
        let z = div_fixed(self.z, t);
        Vec3 { x, y, z }
    }
}

proof fn lemma_norm2_bound(v: Vec3)
    requires
        v.wf(),
    ensures
        0 <= norm2(v) <= 3 * (COORD_MAX as int) * (COORD_MAX as int),
{
    assert(0 <= v.x * v.x <= (COORD_MAX as int) * (COORD_MAX as int)) by (nonlinear_arith)
        requires fits(v.x as int);
    assert(0 <= v.y * v.y <= (COORD_MAX as int) * (COORD_MAX as int)) by (nonlinear_arith)
        requires fits(v.y as int);
    assert(0 <= v.z * v.z <= (COORD_MAX as int) * (COORD_MAX as int)) by (nonlinear_arith)
        requires fits(v.z as int);
}

/// `t * c` in fixed point, rounded down.
fn mul_fixed(t: i64, c: i64) -> (r: i64)
    requires
        fits(t as int),
        fits(c as int),
        fits(fmul(t as int, c as int)),
    ensures
        r == fmul(t as int, c as int),
{
    proof {
        lemma_mul_abs(t as int, c as int, COORD_MAX as int, COORD_MAX as int);
    }
    div_floor((t as i128) * (c as i128), ONE as i128) as i64
}

/// `c / t` in fixed point, rounded down.
fn div_fixed(c: i64, t: i64) -> (r: i64)
    requires
        fits(c as int),
        fits(t as int),
        t != 0,
        fits(fdiv(c as int, t as int)),
    ensures
        r == fdiv(c as int, t as int),
{
    let n: i128 = (c as i128) * (ONE as i128);
    if t > 0 {
        div_floor(n, t as i128) as i64
    } else {
        div_floor(-n, -(t as i128)) as i64
    }
}

/// `c / len` in fixed point where `|c| <= len`: the result lies in `[-ONE, ONE]`.
fn div_unit(c: i64, len: i64) -> (r: i64)
    requires
        0 < len <= 0x8000_0000,
        -len <= c <= len,
    ensures
        r == fdiv(c as int, len as int),
        -ONE <= r <= ONE,
{
    let n: i128 = (c as i128) * (ONE as i128);
    proof {
        assert(-(len as int) * (ONE as int) <= n <= (len as int) * (ONE as int)) by (nonlinear_arith)
            requires
                n == c * ONE,
                -len <= c <= len,
        ;
    }
    let q = div_floor(n, len as i128);
    proof {
        vstd::arithmetic::div_mod::lemma_div_is_ordered(n as int, (len * ONE) as int, len as int);
        vstd::arithmetic::div_mod::lemma_div_is_ordered((-len * ONE) as int, n as int, len as int);
        vstd::arithmetic::div_mod::lemma_fundamental_div_mod_converse((len * ONE) as int, len as int, ONE as int, 0);
        vstd::arithmetic::div_mod::lemma_fundamental_div_mod_converse((-len * ONE) as int, len as int, -ONE as int, 0);
    }
    q as i64
}

/// Dot product, in fixed point.
pub fn dot(u: Vec3, v: Vec3) -> (r: i64)
    requires
        u.wf(),
        v.wf(),
    ensures
        r == dot_raw(u, v) / (ONE as int),
{
    let d = dot_wide(u, v);
    proof {
        lemma_mul_abs(u.x as int, v.x as int, COORD_MAX as int, COORD_MAX as int);
        lemma_mul_abs(u.y as int, v.y as int, COORD_MAX as int, COORD_MAX as int);
        lemma_mul_abs(u.z as int, v.z as int, COORD_MAX as int, COORD_MAX as int);
        vstd::arithmetic::div_mod::lemma_div_is_ordered(d as int, 3 * (COORD_MAX as int) * (COORD_MAX as int), ONE as int);
        vstd::arithmetic::div_mod::lemma_div_is_ordered(-3 * (COORD_MAX as int) * (COORD_MAX as int), d as int, ONE as int);
    }
    div_floor(d, ONE as i128) as i64
}

/// The exact dot product of the raw components.
pub fn dot_wide(u: Vec3, v: Vec3) -> (r: i128)
    requires
        u.wf(),
        v.wf(),
    ensures
        r == dot_raw(u, v),
{
    proof {
        lemma_mul_abs(u.x as int, v.x as int, COORD_MAX as int, COORD_MAX as int);
        lemma_mul_abs(u.y as int, v.y as int, COORD_MAX as int, COORD_MAX as int);
        lemma_mul_abs(u.z as int, v.z as int, COORD_MAX as int, COORD_MAX as int);
    }
    (u.x as i128) * (v.x as i128) + (u.y as i128) * (v.y as i128) + (u.z as i128) * (v.z as i128)
}

/// The cross product of the raw components, each component divided by `ONE`
/// and rounded toward zero, so that swapping the factors negates it exactly.
pub open spec fn cross_spec(u: Vec3, v: Vec3) -> Vec3 {
    Vec3 {
        x: trunc_div(u.y * v.z - u.z * v.y, ONE as int) as i64,
        y: trunc_div(u.z * v.x - u.x * v.z, ONE as int) as i64,
        z: trunc_div(u.x * v.y - u.y * v.x, ONE as int) as i64,
    }
}

/// Swapping the factors of a cross product negates it.
pub proof fn lemma_cross_anticommutative(u: Vec3, v: Vec3)
    requires
        u.wf(),
        v.wf(),
    ensures
        cross_spec(v, u).x == -cross_spec(u, v).x,
        cross_spec(v, u).y == -cross_spec(u, v).y,
        cross_spec(v, u).z == -cross_spec(u, v).z,
{
    let o = ONE as int;
    let m = COORD_MAX as int;
    lemma_mul_abs(u.x as int, v.y as int, m, m);
    lemma_mul_abs(u.x as int, v.z as int, m, m);
    lemma_mul_abs(u.y as int, v.x as int, m, m);
    lemma_mul_abs(u.y as int, v.z as int, m, m);
    lemma_mul_abs(u.z as int, v.x as int, m, m);
    lemma_mul_abs(u.z as int, v.y as int, m, m);
    assert(m * m == 0x1000_0000_0000_0000);
    assert(v.y * u.z - v.z * u.y == -(u.y * v.z - u.z * v.y)) by (nonlinear_arith);
    assert(v.z * u.x - v.x * u.z == -(u.z * v.x - u.x * v.z)) by (nonlinear_arith);
    assert(v.x * u.y - v.y * u.x == -(u.x * v.y - u.y * v.x)) by (nonlinear_arith);
    lemma_trunc_div_neg(u.y * v.z - u.z * v.y, o);
    lemma_trunc_div_neg(u.z * v.x - u.x * v.z, o);
    lemma_trunc_div_neg(u.x * v.y - u.y * v.x, o);
    lemma_trunc_div_bound(u.y * v.z - u.z * v.y, o);
    lemma_trunc_div_bound(u.z * v.x - u.x * v.z, o);
    lemma_trunc_div_bound(u.x * v.y - u.y * v.x, o);
}

/// Cross product, in fixed point, rounded toward zero.
pub fn cross(u: Vec3, v: Vec3) -> (r: Vec3)
    requires
        u.wf(),
        v.wf(),
        fits(trunc_div(u.y * v.z - u.z * v.y, ONE as int)),
        fits(trunc_div(u.z * v.x - u.x * v.z, ONE as int)),
        fits(trunc_div(u.x * v.y - u.y * v.x, ONE as int)),
    ensures
        r == cross_spec(u, v),
        r.x == -cross_spec(v, u).x,
        r.y == -cross_spec(v, u).y,
        r.z == -cross_spec(v, u).z,
        r.wf(),
{
    proof {
        lemma_mul_abs(u.x as int, v.y as int, COORD_MAX as int, COORD_MAX as int);
        lemma_mul_abs(u.x as int, v.z as int, COORD_MAX as int, COORD_MAX as int);
        lemma_mul_abs(u.y as int, v.x as int, COORD_MAX as int, COORD_MAX as int);
        lemma_mul_abs(u.y as int, v.z as int, COORD_MAX as int, COORD_MAX as int);
        lemma_mul_abs(u.z as int, v.x as int, COORD_MAX as int, COORD_MAX as int);
        lemma_mul_abs(u.z as int, v.y as int, COORD_MAX as int, COORD_MAX as int);
        lemma_cross_anticommutative(u, v);
    }
    let (ux, uy, uz) = (u.x as i128, u.y as i128, u.z as i128);
    let (vx, vy, vz) = (v.x as i128, v.y as i128, v.z as i128);
    let one = ONE as i128;
    Vec3 {
        x: div_trunc(uy * vz - uz * vy, one) as i64,
        y: div_trunc(uz * vx - ux * vz, one) as i64,
        z: div_trunc(ux * vy - uy * vx, one) as i64,
    }
}

} // verus!

verus! {

/// A vector that is not zero has a positive squared length.
pub proof fn lemma_norm2_pos(v: Vec3)
    requires
        v.nonzero(),
    ensures
        norm2(v) >= 1,
{
    assert(norm2(v) >= 1) by (nonlinear_arith)
        requires
            v.x != 0 || v.y != 0 || v.z != 0,
            norm2(v) == v.x * v.x + v.y * v.y + v.z * v.z,
    ;
}

} // verus!

verus! {

/// Dividing the sum of `n` identical vectors `c` by the fixed-point count `n`
/// gives `c` back exactly: the mean of identical samples is the sample.
pub proof fn lemma_mean_of_identical(c: Vec3, n: int)
    requires
        n >= 1,
    ensures
        fdiv(n * c.x, n * ONE) == c.x,
        fdiv(n * c.y, n * ONE) == c.y,
        fdiv(n * c.z, n * ONE) == c.z,
{
    let o = ONE as int;
    assert(n * o > 0) by (nonlinear_arith)
        requires
            n >= 1,
            o > 0,
    ;
    assert((n * c.x) * o == (c.x as int) * (n * o)) by (nonlinear_arith);
    assert((n * c.y) * o == (c.y as int) * (n * o)) by (nonlinear_arith);
    assert((n * c.z) * o == (c.z as int) * (n * o)) by (nonlinear_arith);
    vstd::arithmetic::div_mod::lemma_fundamental_div_mod_converse((n * c.x) * o, n * o, c.x as int, 0);
    vstd::arithmetic::div_mod::lemma_fundamental_div_mod_converse((n * c.y) * o, n * o, c.y as int, 0);
    vstd::arithmetic::div_mod::lemma_fundamental_div_mod_converse((n * c.z) * o, n * o, c.z as int, 0);
}

} // verus!
