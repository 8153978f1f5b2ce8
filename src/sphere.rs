//! Spheres and where rays meet them.
use vstd::prelude::*;
use crate::fixed::{
    div_floor, floor_sqrt, is_floor_sqrt, isqrt, lemma_floor_sqrt_unique, lemma_mul_abs, COORD_MAX, ONE,
};
use crate::material::Material;
use crate::ray::{at_fits, at_spec, normal_ok, HitRecord, Hittable, Point3, Ray, NORMAL_MAX};
use crate::vec3::{dot_raw, dot_wide, fdiv, lemma_norm2_pos, norm2, Vec3};

verus! {

#[derive(Debug, Copy, Clone, PartialEq, Eq, Structural)]
pub struct Sphere {
    pub center: Point3,
    pub radius: i64,
    pub material: Material,
}

/// `ray.orig - center`, component by component.
pub open spec fn oc_x(s: Sphere, r: Ray) -> int {
    r.orig.0.x - s.center.0.x
}

pub open spec fn oc_y(s: Sphere, r: Ray) -> int {
    r.orig.0.y - s.center.0.y
}

pub open spec fn oc_z(s: Sphere, r: Ray) -> int {
    r.orig.0.z - s.center.0.z
}

/// The coefficients of `a t^2 + 2 half_b t + c = 0`, whose roots are where
/// the ray meets the sphere (raw units, scaled by `ONE * ONE`).
pub open spec fn coef_a(r: Ray) -> int {
    norm2(r.dir)
}

pub open spec fn coef_half_b(s: Sphere, r: Ray) -> int {
    oc_x(s, r) * r.dir.x + oc_y(s, r) * r.dir.y + oc_z(s, r) * r.dir.z
}

pub open spec fn coef_c(s: Sphere, r: Ray) -> int {
    oc_x(s, r) * oc_x(s, r) + oc_y(s, r) * oc_y(s, r) + oc_z(s, r) * oc_z(s, r) - s.radius
        * s.radius
}

pub open spec fn discriminant(s: Sphere, r: Ray) -> int {
    coef_half_b(s, r) * coef_half_b(s, r) - coef_a(r) * coef_c(s, r)
}

/// The nearer root `(-half_b - sqrt(disc)) / a`, in fixed point.
pub open spec fn near_root(s: Sphere, r: Ray) -> int {
    ((ONE as int) * (-coef_half_b(s, r) - floor_sqrt(discriminant(s, r)))) / coef_a(r)
}

/// The farther root `(-half_b + sqrt(disc)) / a`, in fixed point.
pub open spec fn far_root(s: Sphere, r: Ray) -> int {
    ((ONE as int) * (-coef_half_b(s, r) + floor_sqrt(discriminant(s, r)))) / coef_a(r)
}

/// `(p - center) / radius`, the outward normal at `p`.
pub open spec fn outward_normal(s: Sphere, p: Point3) -> Vec3 {
    Vec3 {
        x: fdiv(p.0.x - s.center.0.x, s.radius as int) as i64,
        y: fdiv(p.0.y - s.center.0.y, s.radius as int) as i64,
        z: fdiv(p.0.z - s.center.0.z, s.radius as int) as i64,
    }
}

/// The record of the ray meeting the sphere at parameter `t`: `None` where
/// the point or its normal cannot be held.
pub open spec fn record_at(s: Sphere, r: Ray, t: int) -> Option<HitRecord> {
    if !at_fits(r, t) {
        None
    } else {
        let p = at_spec(r, t);
        let n = outward_normal(s, p);
        if !normal_ok(n) {
            None
        } else {
            let front = dot_raw(r.dir, n) < 0;
            Some(
                HitRecord {
                    p,
                    normal: if front {
                        n
                    } else {
                        Vec3 { x: -n.x as i64, y: -n.y as i64, z: -n.z as i64 }
                    },
                    t: t as i64,
                    front_face: front,
                    material: s.material,
                },
            )
        }
    }
}

/// Where the ray meets the sphere with `t` in `[t_min, t_max)`, the nearer
/// root first.
pub open spec fn sphere_hit_spec(s: Sphere, r: Ray, t_min: int, t_max: int) -> Option<HitRecord> {
    if discriminant(s, r) < 0 {
        None
    } else if t_min <= near_root(s, r) < t_max {
        record_at(s, r, near_root(s, r))
    } else if t_min <= far_root(s, r) < t_max {
        record_at(s, r, far_root(s, r))
    } else {
        None
    }
}

impl Sphere {
    pub open spec fn wf(&self) -> bool {
        &&& self.center.wf()
        &&& 0 < self.radius <= COORD_MAX
        &&& self.material.wf()
    }

    pub fn new(center: Point3, radius: i64, material: Material) -> (s: Sphere)
        ensures
            s == (Sphere { center, radius, material }),
    {
        Sphere { center, radius, material }
    }
}

impl Hittable for Sphere {
    open spec fn valid(&self) -> bool {
        self.wf()
    }

    open spec fn hit_spec(&self, r: Ray, t_min: int, t_max: int) -> Option<HitRecord> {
        sphere_hit_spec(*self, r, t_min, t_max)
    }

    /// Solves the quadratic exactly and keeps the nearer root in range.
    fn hit(&self, r: &Ray, t_min: i64, t_max: i64) -> (h: Option<HitRecord>) {
        let ghost w: int = 2 * COORD_MAX as int;
        let ghost m: int = COORD_MAX as int;
        let ox = r.orig.0.x as i128 - self.center.0.x as i128;
        let oy = r.orig.0.y as i128 - self.center.0.y as i128;
        let oz = r.orig.0.z as i128 - self.center.0.z as i128;
        let (dx, dy, dz) = (r.dir.x as i128, r.dir.y as i128, r.dir.z as i128);
        let rad = self.radius as i128;
        proof {
            lemma_mul_abs(ox as int, dx as int, w, m);
            lemma_mul_abs(oy as int, dy as int, w, m);
            lemma_mul_abs(oz as int, dz as int, w, m);
            lemma_mul_abs(dx as int, dx as int, m, m);
            lemma_mul_abs(dy as int, dy as int, m, m);
            lemma_mul_abs(dz as int, dz as int, m, m);
            lemma_mul_abs(ox as int, ox as int, w, w);
            lemma_mul_abs(oy as int, oy as int, w, w);
            lemma_mul_abs(oz as int, oz as int, w, w);
            lemma_mul_abs(rad as int, rad as int, m, m);
            lemma_norm2_pos(r.dir);
        }
        let a = dx * dx + dy * dy + dz * dz;
        let hb = ox * dx + oy * dy + oz * dz;
        let c = ox * ox + oy * oy + oz * oz - rad * rad;
        proof {
            assert(1 <= a <= 3 * m * m);
            assert(-3 * w * m <= hb <= 3 * w * m);
            assert(-(m * m) <= c <= 3 * w * w);
            assert(3 * w * m == 0x6000_0000_0000_0000);
            assert(3 * m * m == 0x3000_0000_0000_0000);
            assert(3 * w * w == 0xc000_0000_0000_0000);
            lemma_mul_abs(hb as int, hb as int, 0x6000_0000_0000_0000, 0x6000_0000_0000_0000);
            lemma_mul_abs(a as int, c as int, 0x3000_0000_0000_0000, 0xc000_0000_0000_0000);
            assert(0x6000_0000_0000_0000int * 0x6000_0000_0000_0000int
                == 0x2400_0000_0000_0000_0000_0000_0000_0000);
            assert(0x3000_0000_0000_0000int * 0xc000_0000_0000_0000int
                == 0x2400_0000_0000_0000_0000_0000_0000_0000);
        }
        let disc = hb * hb - a * c;
        if disc < 0 {
            return None;
        }
        let sq = isqrt(disc as u128) as i128;
        let near = div_floor((ONE as i128) * (-hb - sq), a);
        if t_min as i128 <= near && near < t_max as i128 {
            return record_at_exec(self, r, near as i64);
        }
        let far = div_floor((ONE as i128) * (-hb + sq), a);
        if t_min as i128 <= far && far < t_max as i128 {
            return record_at_exec(self, r, far as i64);
        }
        None
    }
}

/// The record of `r` meeting the sphere `s` at parameter `t`.
fn record_at_exec(s: &Sphere, r: &Ray, t: i64) -> (h: Option<HitRecord>)
    requires
        s.wf(),
        r.wf(),
        0 < t,
    ensures
        h == record_at(*s, *r, t as int),
        h matches Some(rec) ==> rec.wf() && rec.t == t,
{
    match r.at(t) {
        None => None,
        Some(p) => {
            let n = Vec3 {
                x: outward_coord(p.0.x, s.center.0.x, s.radius),
                y: outward_coord(p.0.y, s.center.0.y, s.radius),
                z: outward_coord(p.0.z, s.center.0.z, s.radius),
            };
            if !(-NORMAL_MAX <= n.x && n.x <= NORMAL_MAX && -NORMAL_MAX <= n.y && n.y
                <= NORMAL_MAX && -NORMAL_MAX <= n.z && n.z <= NORMAL_MAX && (n.x != 0 || n.y
                != 0 || n.z != 0)) {
                return None;
            }
            let front = dot_wide(r.dir, n) < 0;
            let normal = if front {
                n
            } else {
                n.neg()
            };
            Some(HitRecord { p, normal, t, front_face: front, material: s.material })
        },
    }
}

/// `(p - c) / radius` in fixed point.
fn outward_coord(p: i64, c: i64, radius: i64) -> (n: i64)
    requires
        -COORD_MAX <= p <= COORD_MAX,
        -COORD_MAX <= c <= COORD_MAX,
        0 < radius,
    ensures
        n == fdiv(p - c, radius as int),
{
    proof {
        lemma_mul_abs(p - c, ONE as int, 2 * (COORD_MAX as int), ONE as int);
    }
    let num = (p as i128 - c as i128) * (ONE as i128);
    let q = div_floor(num, radius as i128);
    proof {
        let b = 2 * (COORD_MAX as int) * (ONE as int);
        assert(-b <= num <= b);
        vstd::arithmetic::div_mod::lemma_fundamental_div_mod(num as int, radius as int);
        let md = (num as int) % (radius as int);
        assert(-b <= q <= b) by (nonlinear_arith)
            requires
                num == (radius as int) * (q as int) + md,
                0 <= md < radius,
                radius >= 1,
                -b <= num <= b,
        ;
    }
    q as i64
}

} // verus!

verus! {

/// A ray whose unit direction points at the centre, which lies `k` units
/// ahead of the origin, meets the sphere at `t = k - radius` and
/// `t = k + radius`; the nearer of the two that lies in range is the hit.
pub proof fn lemma_ray_through_center(s: Sphere, r: Ray, k: int, t_min: int, t_max: int)
    requires
        s.wf(),
        r.wf(),
        norm2(r.dir) == (ONE as int) * (ONE as int),
        oc_x(s, r) == -k * r.dir.x,
        oc_y(s, r) == -k * r.dir.y,
        oc_z(s, r) == -k * r.dir.z,
    ensures
        discriminant(s, r) >= 0,
        near_root(s, r) == k * ONE - s.radius,
        far_root(s, r) == k * ONE + s.radius,
        t_min <= k * ONE - s.radius < t_max ==> sphere_hit_spec(s, r, t_min, t_max) == record_at(
            s,
            r,
            k * ONE - s.radius,
        ),
        !(t_min <= k * ONE - s.radius < t_max) && t_min <= k * ONE + s.radius < t_max
            ==> sphere_hit_spec(s, r, t_min, t_max) == record_at(s, r, k * ONE + s.radius),
{
    let o = ONE as int;
    let rad = s.radius as int;
    let (dx, dy, dz) = (r.dir.x as int, r.dir.y as int, r.dir.z as int);
    let (ox, oy, oz) = (oc_x(s, r), oc_y(s, r), oc_z(s, r));
    let a = coef_a(r);
    let hb = coef_half_b(s, r);
    let c = coef_c(s, r);
    let disc = discriminant(s, r);
    assert(a == dx * dx + dy * dy + dz * dz);
    assert(hb == ox * dx + oy * dy + oz * dz);
    assert(c == ox * ox + oy * oy + oz * oz - rad * rad);
    assert(disc == hb * hb - a * c);
    assert(hb == -k * a) by (nonlinear_arith)
        requires
            hb == ox * dx + oy * dy + oz * dz,
            ox == -k * dx,
            oy == -k * dy,
            oz == -k * dz,
            a == dx * dx + dy * dy + dz * dz,
    ;
    assert(ox * ox == (k * k) * (dx * dx)) by (nonlinear_arith)
        requires
            ox == -k * dx,
    ;
    assert(oy * oy == (k * k) * (dy * dy)) by (nonlinear_arith)
        requires
            oy == -k * dy,
    ;
    assert(oz * oz == (k * k) * (dz * dz)) by (nonlinear_arith)
        requires
            oz == -k * dz,
    ;
    assert((k * k) * (dx * dx) + (k * k) * (dy * dy) + (k * k) * (dz * dz) == (k * k) * a)
        by (nonlinear_arith)
        requires
            a == dx * dx + dy * dy + dz * dz,
    ;
    assert(disc == a * (rad * rad)) by (nonlinear_arith)
        requires
            disc == hb * hb - a * c,
            hb == -k * a,
            c == k * k * a - rad * rad,
    ;
    assert(disc == (o * rad) * (o * rad)) by (nonlinear_arith)
        requires
            disc == a * (rad * rad),
            a == o * o,
    ;
    assert(is_floor_sqrt(disc, o * rad)) by (nonlinear_arith)
        requires
            disc == (o * rad) * (o * rad),
            o > 0,
            rad > 0,
    ;
    lemma_floor_sqrt_unique(discriminant(s, r), o * rad);
    assert(o * (-hb - o * rad) == (k * o - rad) * (o * o)) by (nonlinear_arith)
        requires
            hb == -k * (o * o),
    ;
    assert(o * (-hb + o * rad) == (k * o + rad) * (o * o)) by (nonlinear_arith)
        requires
            hb == -k * (o * o),
    ;
    vstd::arithmetic::div_mod::lemma_fundamental_div_mod_converse(
        o * (-coef_half_b(s, r) - o * rad),
        o * o,
        k * o - rad,
        0,
    );
    vstd::arithmetic::div_mod::lemma_fundamental_div_mod_converse(
        o * (-coef_half_b(s, r) + o * rad),
        o * o,
        k * o + rad,
        0,
    );
}

/// A ray tangent to the sphere (discriminant zero) has one root,
/// `-half_b / a`, and a hit, if any, is there.
pub proof fn lemma_tangent_single_root(s: Sphere, r: Ray, t_min: int, t_max: int)
    requires
        s.wf(),
        r.wf(),
        discriminant(s, r) == 0,
        i64::MIN <= t_min,
        t_max <= i64::MAX,
    ensures
        near_root(s, r) == far_root(s, r),
        near_root(s, r) == ((ONE as int) * -coef_half_b(s, r)) / coef_a(r),
        sphere_hit_spec(s, r, t_min, t_max) matches Some(h) ==> h.t == near_root(s, r),
        sphere_hit_spec(s, r, t_min, t_max) == (if t_min <= near_root(s, r) < t_max {
            record_at(s, r, near_root(s, r))
        } else {
            None
        }),
{
    lemma_floor_sqrt_unique(0, 0);
    if t_min <= near_root(s, r) < t_max {
        lemma_record_t(s, r, near_root(s, r));
    }
}

proof fn lemma_record_t(s: Sphere, r: Ray, t: int)
    requires
        s.wf(),
        i64::MIN <= t <= i64::MAX,
    ensures
        record_at(s, r, t) matches Some(h) ==> h.t == t,
{
}

} // verus!

verus! {

/// The nearer root is never past the farther one.
proof fn lemma_near_le_far(s: Sphere, r: Ray)
    requires
        r.wf(),
        discriminant(s, r) >= 0,
    ensures
        near_root(s, r) <= far_root(s, r),
{
    let d = discriminant(s, r);
    let sq = floor_sqrt(d);
    assert(exists|w: int| is_floor_sqrt(d, w)) by {
        let w = crate::fixed::floor_sqrt_witness(d);
    }
    assert(is_floor_sqrt(d, sq));
    crate::vec3::lemma_norm2_pos(r.dir);
    let o = ONE as int;
    let hb = coef_half_b(s, r);
    assert(o * (-hb - sq) <= o * (-hb + sq)) by (nonlinear_arith)
        requires
            sq >= 0,
            o > 0,
    ;
    vstd::arithmetic::div_mod::lemma_div_is_ordered(o * (-hb - sq), o * (-hb + sq), coef_a(r));
}

/// A hit found within `[t_min, t_max)` is found again, the same, within
/// `[t_min, b)` for any `b` above its parameter.
pub proof fn lemma_hit_within_smaller_bound(s: Sphere, r: Ray, t_min: int, t_max: int, b: int)
    requires
        s.wf(),
        r.wf(),
        i64::MIN <= t_min,
        t_max <= i64::MAX,
        sphere_hit_spec(s, r, t_min, t_max) is Some,
        sphere_hit_spec(s, r, t_min, t_max)->Some_0.t < b,
    ensures
        sphere_hit_spec(s, r, t_min, b) == sphere_hit_spec(s, r, t_min, t_max),
{
    lemma_near_le_far(s, r);
    let near = near_root(s, r);
    let far = far_root(s, r);
    if t_min <= near < t_max {
        lemma_record_t(s, r, near);
    } else {
        lemma_record_t(s, r, far);
    }
}

/// A hit of `sphere_hit_spec` lies within the bounds it was asked for.
pub proof fn lemma_hit_in_range(s: Sphere, r: Ray, t_min: int, t_max: int)
    requires
        s.wf(),
        i64::MIN <= t_min,
        t_max <= i64::MAX,
    ensures
        sphere_hit_spec(s, r, t_min, t_max) matches Some(h) ==> t_min <= h.t < t_max,
{
    if t_min <= near_root(s, r) < t_max {
        lemma_record_t(s, r, near_root(s, r));
    } else if t_min <= far_root(s, r) < t_max {
        lemma_record_t(s, r, far_root(s, r));
    }
}

} // verus!
