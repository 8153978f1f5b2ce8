//! The random source that diffuse scattering and pixel sampling draw from.
use vstd::prelude::*;
use rand::Rng;
use rand::rngs::ThreadRng;
use crate::fixed::ONE;
use crate::fixed::{floor_sqrt, floor_sqrt_witness, lemma_floor_sqrt_unique, lemma_sum_scaled};
use crate::vec3::{fdiv, norm2, normalize_spec, Vec3};

verus! {

/// rand's per-thread generator, carried through as an opaque value.
#[verifier::external_type_specification]
#[verifier::external_body]
pub struct ExThreadRng(rand::rngs::ThreadRng);

/// Relies on rand's `Rng::gen_range` over an inclusive integer range: the
/// value drawn lies in `lo..=hi` (it panics only on an empty range).
#[verifier::external_body]
fn sample_inclusive(rng: &mut ThreadRng, lo: i64, hi: i64) -> (r: i64)
    requires
        lo <= hi,
    ensures
        lo <= r <= hi,
{
    rng.gen_range(lo..=hi)
}

/// How many candidates the rejection sampler draws before it gives up.
pub const MAX_ATTEMPTS: u32 = 64;

/// A vector strictly inside the unit ball, and not zero.
pub open spec fn in_unit_ball(v: Vec3) -> bool {
    &&& -ONE <= v.x <= ONE
    &&& -ONE <= v.y <= ONE
    &&& -ONE <= v.z <= ONE
    &&& 0 < norm2(v) < (ONE as int) * (ONE as int)
}

/// Squared length, in raw units, below which a point of the ball is doubled
/// before it is normalized, so that rounding stays small: `(1/2)^2`.
pub const MIN_NORM2: i128 = 0x4000_0000;

/// A point of the unit ball at least 1/2 from its centre.
pub open spec fn in_unit_shell(v: Vec3) -> bool {
    &&& -ONE <= v.x <= ONE
    &&& -ONE <= v.y <= ONE
    &&& -ONE <= v.z <= ONE
    &&& MIN_NORM2 <= norm2(v) < (ONE as int) * (ONE as int)
}

/// `w` is `v` scaled by the positive whole factor `m`: the same direction.
pub open spec fn scaled_by(v: Vec3, w: Vec3, m: int) -> bool {
    m >= 1 && w.x == m * v.x && w.y == m * v.y && w.z == m * v.z
}

/// A candidate of the rejection sampler is kept iff it lies inside the unit
/// ball and is not zero.
pub fn accept_candidate(v: Vec3) -> (b: bool)
    requires
        -ONE <= v.x <= ONE,
        -ONE <= v.y <= ONE,
        -ONE <= v.z <= ONE,
    ensures
        b == in_unit_ball(v),
{
    let n = v.norm2_exec();
    0 < n && n < 0x1_0000_0000
}

/// A random vector in the unit ball, by rejection sampling from the cube
/// `[-1, 1]^3`. Every loop here must be shown to end, so the sampler draws at
/// most `MAX_ATTEMPTS` candidates; if all are rejected (a chance below
/// `0.48^64`) it returns the vector `(1/2, 0, 0)`.
pub fn random_in_unit_sphere(rng: &mut ThreadRng) -> (v: Vec3)
    ensures
        in_unit_ball(v),
{
    let mut i: u32 = 0;
    while i < MAX_ATTEMPTS
        decreases MAX_ATTEMPTS - i,
    {
        let x = sample_inclusive(rng, -ONE, ONE);
        let y = sample_inclusive(rng, -ONE, ONE);
        let z = sample_inclusive(rng, -ONE, ONE);
        let v = Vec3 { x, y, z };
        if accept_candidate(v) {
            return v;
        }
        i = i + 1;
    }
    let v = Vec3 { x: ONE / 2, y: 0, z: 0 };
    assert(norm2(v) == 0x4000_0000) by (nonlinear_arith)
        requires
            v.x == 0x8000,
            v.y == 0,
            v.z == 0,
            norm2(v) == v.x * v.x + v.y * v.y + v.z * v.z,
    ;
    v
}

/// Doubles a point of the unit ball until it is at least 1/2 from the
/// centre; its direction does not change.
pub fn lift_to_shell(v: Vec3) -> (w: Vec3)
    requires
        in_unit_ball(v),
    ensures
        in_unit_shell(w),
        exists|m: int| scaled_by(v, w, m),
{
    let mut w = v;
    let ghost mut m: int = 1;
    let mut n = w.norm2_exec();
    while n < MIN_NORM2
        invariant
            in_unit_ball(w),
            n == norm2(w),
            scaled_by(v, w, m),
        decreases 0x1_0000_0000 - n,
    {
        proof {
            assert(-0x8000 < w.x < 0x8000 && -0x8000 < w.y < 0x8000 && -0x8000 < w.z < 0x8000)
                by (nonlinear_arith)
                requires
                    n == w.x * w.x + w.y * w.y + w.z * w.z,
                    n < 0x4000_0000,
            ;
        }
        let d = Vec3 { x: 2 * w.x, y: 2 * w.y, z: 2 * w.z };
        proof {
            assert(norm2(d) == 4 * n) by (nonlinear_arith)
                requires
                    n == w.x * w.x + w.y * w.y + w.z * w.z,
                    norm2(d) == d.x * d.x + d.y * d.y + d.z * d.z,
                    d.x == 2 * w.x,
                    d.y == 2 * w.y,
                    d.z == 2 * w.z,
            ;
            assert(d.x == (2 * m) * v.x && d.y == (2 * m) * v.y && d.z == (2 * m) * v.z)
                by (nonlinear_arith)
                requires
                    w.x == m * v.x,
                    w.y == m * v.y,
                    w.z == m * v.z,
                    d.x == 2 * w.x,
                    d.y == 2 * w.y,
                    d.z == 2 * w.z,
            ;
            m = 2 * m;
        }
        w = d;
        n = w.norm2_exec();
    }
    w
}

/// A random unit vector: a random point of the unit ball, doubled away from
/// the centre and normalized. Its squared length is within 0.06% of one
/// (`near_unit`).
pub fn random_unit_vector(rng: &mut ThreadRng) -> (u: Vec3)
    ensures
        exists|v: Vec3, w: Vec3, m: int|
            in_unit_ball(v) && scaled_by(v, w, m) && in_unit_shell(w) && u == normalize_spec(w),
        near_unit(u),
        -ONE <= u.x <= ONE,
        -ONE <= u.y <= ONE,
        -ONE <= u.z <= ONE,
{
    let b = random_in_unit_sphere(rng);
    let v = lift_to_shell(b);
    proof {
        let m = choose|m: int| scaled_by(b, v, m);
        if !v.nonzero() {
            assert(norm2(v) == 0) by (nonlinear_arith)
                requires
                    v.x == 0,
                    v.y == 0,
                    v.z == 0,
                    norm2(v) == v.x * v.x + v.y * v.y + v.z * v.z,
            ;
        }
        assert(in_unit_ball(b) && scaled_by(b, v, m) && in_unit_shell(v));
    }
    proof {
        lemma_normalize_near_unit(v);
    }
    v.normalize()
}

/// Within `24 / ONE` below and `35 / ONE` above unit squared length (raw units).
pub open spec fn near_unit(u: Vec3) -> bool {
    let o = ONE as int;
    o * o - 24 * o <= norm2(u) <= o * o + 35 * o
}

/// One component of a normalized vector: `v * ONE == len * u + e`, `0 <= e < len`.
proof fn lemma_component(v: int, len: int) -> (e: int)
    requires
        len > 0,
    ensures
        v * ONE == len * fdiv(v, len) + e,
        0 <= e < len,
{
    vstd::arithmetic::div_mod::lemma_fundamental_div_mod(v * ONE, len);
    (v * ONE) % len
}

/// Normalizing a vector of the unit shell gives nearly unit length.
pub proof fn lemma_normalize_near_unit(v: Vec3)
    requires
        in_unit_shell(v),
    ensures
        near_unit(normalize_spec(v)),
{
    let o = ONE as int;
    let n = norm2(v);
    let w = floor_sqrt_witness(n);
    lemma_floor_sqrt_unique(n, w);
    let l = floor_sqrt(n);
    assert(l >= 16384) by (nonlinear_arith)
        requires
            n < (l + 1) * (l + 1),
            n >= 0x1000_0000,
            l >= 0,
    ;
    let u = normalize_spec(v);
    let (vx, vy, vz) = (v.x as int, v.y as int, v.z as int);
    let ex = lemma_component(vx, l);
    let ey = lemma_component(vy, l);
    let ez = lemma_component(vz, l);
    let (ux, uy, uz) = (fdiv(vx, l), fdiv(vy, l), fdiv(vz, l));
    assert(n == vx * vx + vy * vy + vz * vz);
    assert(0 <= vx * vx && 0 <= vy * vy && 0 <= vz * vz) by (nonlinear_arith);
    assert(-o <= ux <= o && -o <= uy <= o && -o <= uz <= o) by {
        lemma_unit_component(vx, l, n);
        lemma_unit_component(vy, l, n);
        lemma_unit_component(vz, l, n);
    }
    assert(u.x == ux && u.y == uy && u.z == uz);
    let x2 = norm2(u);
    assert(x2 == ux * ux + uy * uy + uz * uz);
    assert(n == vx * vx + vy * vy + vz * vz);
    // (l u)^2 = (v o)^2 - 2 (v o) e + e^2, per component.
    assert((l * ux) * (l * ux) == (vx * o) * (vx * o) - 2 * ((vx * o) * ex) + ex * ex)
        by (nonlinear_arith)
        requires
            vx * o == l * ux + ex,
    ;
    assert((l * uy) * (l * uy) == (vy * o) * (vy * o) - 2 * ((vy * o) * ey) + ey * ey)
        by (nonlinear_arith)
        requires
            vy * o == l * uy + ey,
    ;
    assert((l * uz) * (l * uz) == (vz * o) * (vz * o) - 2 * ((vz * o) * ez) + ez * ez)
        by (nonlinear_arith)
        requires
            vz * o == l * uz + ez,
    ;
    lemma_square_scaled(l, ux);
    lemma_square_scaled(l, uy);
    lemma_square_scaled(l, uz);
    lemma_sum_scaled(l * l, ux * ux, uy * uy, uz * uz);
    lemma_square_scaled(o, vx);
    lemma_square_scaled(o, vy);
    lemma_square_scaled(o, vz);
    lemma_sum_scaled(o * o, vx * vx, vy * vy, vz * vz);
    assert((l * ux) * (l * ux) + (l * uy) * (l * uy) + (l * uz) * (l * uz) == (l * l) * x2);
    assert((vx * o) * (vx * o) + (vy * o) * (vy * o) + (vz * o) * (vz * o) == (o * o) * n);
    lemma_cross_term(vx, o, ex, l);
    lemma_cross_term(vy, o, ey, l);
    lemma_cross_term(vz, o, ez, l);
    assert(0 <= ex * ex <= l * l && 0 <= ey * ey <= l * l && 0 <= ez * ez <= l * l)
        by (nonlinear_arith)
        requires
            0 <= ex < l,
            0 <= ey < l,
            0 <= ez < l,
    ;
    let lhs = (l * l) * x2;
    assert((o * o) * n - 6 * (o * o) * l <= lhs <= (o * o) * n + 6 * (o * o) * l + 3 * (l * l));
    assert(l * l <= n <= l * l + 2 * l) by (nonlinear_arith)
        requires
            l * l <= n,
            n < (l + 1) * (l + 1),
    ;
    assert((o * o) * (l * l) <= (o * o) * n <= (o * o) * (l * l) + 2 * (o * o) * l)
        by (nonlinear_arith)
        requires
            l * l <= n <= l * l + 2 * l,
    ;
    assert(lhs <= (o * o) * (l * l) + 8 * (o * o) * l + 3 * (l * l)) by (nonlinear_arith)
        requires
            lhs <= (o * o) * n + 6 * (o * o) * l + 3 * (l * l),
            (o * o) * n <= (o * o) * (l * l) + 2 * (o * o) * l,
    ;
    assert((o * o) * (l * l) - 6 * (o * o) * l <= lhs) by (nonlinear_arith)
        requires
            (o * o) * n - 6 * (o * o) * l <= lhs,
            (o * o) * (l * l) <= (o * o) * n,
    ;
    assert(8 * (o * o) * l <= 32 * o * (l * l) && 6 * (o * o) * l <= 24 * o * (l * l))
        by (nonlinear_arith)
        requires
            o <= 4 * l,
            o > 0,
            l > 0,
    ;
    assert((l * l) * x2 <= (l * l) * (o * o + 35 * o)) by (nonlinear_arith)
        requires
            lhs == (l * l) * x2,
            lhs <= (o * o) * (l * l) + 8 * (o * o) * l + 3 * (l * l),
            8 * (o * o) * l <= 32 * o * (l * l),
            o == 65536,
    ;
    assert((l * l) * (o * o - 24 * o) <= (l * l) * x2) by (nonlinear_arith)
        requires
            lhs == (l * l) * x2,
            (o * o) * (l * l) - 6 * (o * o) * l <= lhs,
            6 * (o * o) * l <= 24 * o * (l * l),
    ;
    assert(o * o - 24 * o <= x2 <= o * o + 35 * o) by (nonlinear_arith)
        requires
            (l * l) * x2 <= (l * l) * (o * o + 35 * o),
            (l * l) * (o * o - 24 * o) <= (l * l) * x2,
            l > 0,
    ;
}

proof fn lemma_square_scaled(k: int, a: int)
    ensures
        (k * a) * (k * a) == (k * k) * (a * a),
        (a * k) * (a * k) == (k * k) * (a * a),
{
    assert((k * a) * (k * a) == (k * k) * (a * a)) by (nonlinear_arith);
    assert((a * k) * (a * k) == (k * k) * (a * a)) by (nonlinear_arith);
}

/// `|(v o) e| <= o^2 l` where `|v| <= o` and `0 <= e < l`.
proof fn lemma_cross_term(v: int, o: int, e: int, l: int)
    requires
        -o <= v <= o,
        0 <= e < l,
        o > 0,
    ensures
        -(o * o) * l <= (v * o) * e <= (o * o) * l,
{
    assert(-(o * o) * l <= (v * o) * e <= (o * o) * l) by (nonlinear_arith)
        requires
            -o <= v <= o,
            0 <= e < l,
            o > 0,
    ;
}

/// A component of a normalized vector lies in `[-ONE, ONE]`.
proof fn lemma_unit_component(c: int, l: int, n: int)
    requires
        crate::fixed::is_floor_sqrt(n, l),
        l > 0,
        c * c <= n,
    ensures
        -ONE <= fdiv(c, l) <= ONE,
{
    let o = ONE as int;
    if c > l {
        assert((l + 1) * (l + 1) <= c * c) by (nonlinear_arith)
            requires
                l + 1 <= c,
                l >= 0,
        ;
    }
    if c < -l {
        assert((l + 1) * (l + 1) <= c * c) by (nonlinear_arith)
            requires
                c <= -l - 1,
                l >= 0,
        ;
    }
    assert(-(l * o) <= c * o <= l * o) by (nonlinear_arith)
        requires
            -l <= c <= l,
            o > 0,
    ;
    vstd::arithmetic::div_mod::lemma_div_is_ordered(c * o, l * o, l);
    vstd::arithmetic::div_mod::lemma_div_is_ordered(-(l * o), c * o, l);
    vstd::arithmetic::div_mod::lemma_fundamental_div_mod_converse(l * o, l, o, 0);
    vstd::arithmetic::div_mod::lemma_fundamental_div_mod_converse(-(l * o), l, -o, 0);
}

/// `spp` random sub-pixel offsets, each coordinate in `[0, 1)`.
pub fn rand_displacement(spp: usize, rng: &mut ThreadRng) -> (dp: Vec<(i64, i64)>)
    ensures
        dp.len() == spp,
        forall|i: int|
            0 <= i < spp ==> 0 <= #[trigger] dp[i].0 < ONE && 0 <= dp[i].1 < ONE,
{
    let mut dp: Vec<(i64, i64)> = Vec::with_capacity(spp);
    let mut k: usize = 0;
    while k < spp
        invariant
            k <= spp,
            dp.len() == k,
            forall|i: int| 0 <= i < k ==> 0 <= #[trigger] dp[i].0 < ONE && 0 <= dp[i].1 < ONE,
        decreases spp - k,
    {
        let dx = sample_inclusive(rng, 0, ONE - 1);
        let dy = sample_inclusive(rng, 0, ONE - 1);
        dp.push((dx, dy));
        k = k + 1;
    }
    dp
}

} // verus!
