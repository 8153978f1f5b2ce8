//! Materials and how they scatter light.
use vstd::prelude::*;
use crate::color::Color;
use crate::fixed::{div_floor, lemma_sum_scaled, ONE};
use crate::random::{in_unit_shell, random_unit_vector};
use rand::rngs::ThreadRng;
use crate::ray::{normal_ok, HitRecord, Ray, NORMAL_MAX};
use crate::vec3::{dot_raw, dot_wide, fmul, norm2, normalize_spec, reflect_spec, Vec3};

verus! {

/// A diffuse surface.
#[derive(Debug, Copy, Clone, PartialEq, Eq, Structural)]
pub struct Lambertian {
    pub albedo: Color,
}

/// A perfectly specular reflecting surface.
#[derive(Debug, Copy, Clone, PartialEq, Eq, Structural)]
pub struct Metal {
    pub albedo: Color,
}

#[derive(Debug, Copy, Clone, PartialEq, Eq, Structural)]
pub enum Material {
    Lambertian(Lambertian),
    Metal(Metal),
}

/// A random direction drawn by diffuse scattering: components in `[-1, 1]`.
pub open spec fn unit_box(u: Vec3) -> bool {
    -ONE <= u.x <= ONE && -ONE <= u.y <= ONE && -ONE <= u.z <= ONE
}

/// The diffuse scatter direction for the random unit vector `u`.
pub open spec fn lambertian_dir(normal: Vec3, u: Vec3) -> Vec3 {
    let d = Vec3 {
        x: (normal.x + u.x) as i64,
        y: (normal.y + u.y) as i64,
        z: (normal.z + u.z) as i64,
    };
    if -1 < d.x < 1 && -1 < d.y < 1 && -1 < d.z < 1 {
        normal
    } else {
        d
    }
}

/// What a metal does with the incoming ray `r` at `rec`.
pub open spec fn metal_scatter_spec(albedo: Color, r: Ray, rec: HitRecord) -> Option<(Color, Ray)> {
    let reflected = reflect_spec(normalize_spec(r.dir), rec.normal);
    if dot_raw(reflected, rec.normal) > 0 {
        Some((albedo, Ray { orig: rec.p, dir: reflected }))
    } else {
        None
    }
}

impl Material {
    pub open spec fn albedo(&self) -> Color {
        match *self {
            Material::Lambertian(l) => l.albedo,
            Material::Metal(m) => m.albedo,
        }
    }

    pub open spec fn wf(&self) -> bool {
        self.albedo().wf()
    }

    pub fn new_lambertian(albedo: Color) -> (m: Material)
        ensures
            m == Material::Lambertian(Lambertian { albedo }),
    {
        Material::Lambertian(Lambertian { albedo })
    }

    pub fn new_metal(albedo: Color) -> (m: Material)
        ensures
            m == Material::Metal(Metal { albedo }),
    {
        Material::Metal(Metal { albedo })
    }

    /// Scatters `r_in` at `rec`; `None` means the ray is absorbed.
    pub fn scatter(&self, r_in: &Ray, rec: &HitRecord, rng: &mut ThreadRng) -> (s: Option<
        (Color, Ray),
    >)
        requires
            r_in.wf(),
            rec.wf(),
            self.wf(),
        ensures
            match *self {
                Material::Lambertian(l) => exists|v: Vec3|
                    in_unit_shell(v) && s == Some(
                        (
                            l.albedo,
                            Ray { orig: rec.p, dir: lambertian_dir(rec.normal, normalize_spec(v)) },
                        ),
                    ),
                Material::Metal(m) => s == metal_scatter_spec(m.albedo, *r_in, *rec),
            },
            s matches Some((c, r)) ==> c.wf() && r.wf(),
    {
        match self {
            Material::Lambertian(l) => Some(l.scatter(r_in, rec, rng)),
            Material::Metal(m) => m.scatter(r_in, rec),
        }
    }
}

impl Lambertian {
    /// Diffuse scattering along `rec.normal + u`, for a unit vector `u`.
    pub fn scatter_with(&self, rec: &HitRecord, u: Vec3) -> (s: (Color, Ray))
        requires
            rec.wf(),
            unit_box(u),
        ensures
            s == (self.albedo, Ray { orig: rec.p, dir: lambertian_dir(rec.normal, u) }),
            s.1.wf(),
    {
        let mut dir = rec.normal.add(u);
        if dir.near_zero() {
            dir = rec.normal;
        }
        (self.albedo, Ray { orig: rec.p, dir })
    }

    /// Diffuse scattering: always a result, with the albedo as attenuation.
    pub fn scatter(&self, _r_in: &Ray, rec: &HitRecord, rng: &mut ThreadRng) -> (s: (Color, Ray))
        requires
            rec.wf(),
        ensures
            exists|v: Vec3|
                in_unit_shell(v) && s == (self.albedo, Ray {
                    orig: rec.p,
                    dir: lambertian_dir(rec.normal, normalize_spec(v)),
                }),
            s.0 == self.albedo,
            s.1.orig == rec.p,
            s.1.wf(),
    {
        let u = random_unit_vector(rng);
        let ghost v = choose|v: Vec3| in_unit_shell(v) && u == normalize_spec(v);
        let s = self.scatter_with(rec, u);
        assert(in_unit_shell(v) && s == (self.albedo, Ray {
            orig: rec.p,
            dir: lambertian_dir(rec.normal, normalize_spec(v)),
        }));
        s
    }
}

impl Metal {
    /// Mirror reflection; `None` where the reflected ray would enter the surface.
    pub fn scatter(&self, r_in: &Ray, rec: &HitRecord) -> (s: Option<(Color, Ray)>)
        requires
            r_in.wf(),
            rec.wf(),
        ensures
            s == metal_scatter_spec(self.albedo, *r_in, *rec),
            s is None <==> dot_raw(reflect_spec(normalize_spec(r_in.dir), rec.normal), rec.normal)
                <= 0,
            s matches Some((c, r)) ==> c == self.albedo && r.orig == rec.p && r.wf(),
    {
        let d = r_in.dir.normalize();
        let reflected = reflect(d, rec.normal);
        if dot_wide(reflected, rec.normal) > 0 {
            Some((self.albedo, Ray { orig: rec.p, dir: reflected }))
        } else {
            None
        }
    }
}

/// Mirror image of the unit vector `v` about the normal `n`.
pub fn reflect(v: Vec3, n: Vec3) -> (r: Vec3)
    requires
        unit_box(v),
        normal_ok(n),
    ensures
        r == reflect_spec(v, n),
        r.wf(),
{
    let d = dot_wide(v, n);
    proof {
        let m = NORMAL_MAX as int;
        assert(-6 * (ONE as int) * (ONE as int) <= dot_raw(v, n) <= 6 * (ONE as int) * (ONE as int))
            by (nonlinear_arith)
            requires
                -ONE <= v.x <= ONE,
                -ONE <= v.y <= ONE,
                -ONE <= v.z <= ONE,
                -m <= n.x <= m,
                -m <= n.y <= m,
                -m <= n.z <= m,
                m == 2 * ONE,
                dot_raw(v, n) == v.x * n.x + v.y * n.y + v.z * n.z,
        ;
        vstd::arithmetic::div_mod::lemma_div_is_ordered(dot_raw(v, n), 6 * (ONE as int) * (ONE as int), ONE as int);
        vstd::arithmetic::div_mod::lemma_div_is_ordered(-6 * (ONE as int) * (ONE as int), dot_raw(v, n), ONE as int);
        vstd::arithmetic::div_mod::lemma_fundamental_div_mod_converse(6 * (ONE as int) * (ONE as int), ONE as int, 6 * (ONE as int), 0);
        vstd::arithmetic::div_mod::lemma_fundamental_div_mod_converse(-6 * (ONE as int) * (ONE as int), ONE as int, -6 * (ONE as int), 0);
    }
    let k = div_floor(d, ONE as i128);
    let x = v.x as i128 - reflect_term(k, n.x);
    let y = v.y as i128 - reflect_term(k, n.y);
    let z = v.z as i128 - reflect_term(k, n.z);
    Vec3 { x: x as i64, y: y as i64, z: z as i64 }
}

/// `2 k c` in fixed point, for `|k| <= 6` and `|c| <= 2`.
fn reflect_term(k: i128, c: i64) -> (r: i128)
    requires
        -6 * ONE <= k <= 6 * ONE,
        -NORMAL_MAX <= c <= NORMAL_MAX,
    ensures
        r == fmul(2 * k, c as int),
        -24 * ONE <= r <= 24 * ONE,
{
    proof {
        let b = 24 * (ONE as int) * (ONE as int);
        assert(-b <= 2 * k * c <= b) by (nonlinear_arith)
            requires
                -6 * ONE <= k <= 6 * ONE,
                -2 * ONE <= c <= 2 * ONE,
                b == 24 * (ONE as int) * (ONE as int),
        ;
        vstd::arithmetic::div_mod::lemma_div_is_ordered(2 * k * c, b, ONE as int);
        vstd::arithmetic::div_mod::lemma_div_is_ordered(-b, 2 * k * c, ONE as int);
        vstd::arithmetic::div_mod::lemma_fundamental_div_mod_converse(b, ONE as int, 24 * (ONE as int), 0);
        vstd::arithmetic::div_mod::lemma_fundamental_div_mod_converse(-b, ONE as int, -24 * (ONE as int), 0);
    }
    div_floor(2 * k * (c as i128), ONE as i128)
}

} // verus!

verus! {

/// Law of reflection: for a unit normal `n`, where the fixed-point products
/// of the reflection are exact, the reflected vector has the length of `v` and
/// the opposite dot product with `n`, so it makes with `n` the angle that `-v`
/// makes.
pub proof fn lemma_reflection_law(v: Vec3, n: Vec3)
    requires
        unit_box(v),
        normal_ok(n),
        norm2(n) == (ONE as int) * (ONE as int),
        dot_raw(v, n) % (ONE as int) == 0,
        (2 * (dot_raw(v, n) / (ONE as int)) * n.x) % (ONE as int) == 0,
        (2 * (dot_raw(v, n) / (ONE as int)) * n.y) % (ONE as int) == 0,
        (2 * (dot_raw(v, n) / (ONE as int)) * n.z) % (ONE as int) == 0,
    ensures
        dot_raw(reflect_spec(v, n), n) == -dot_raw(v, n),
        norm2(reflect_spec(v, n)) == norm2(v),
{
    let o = ONE as int;
    let d = dot_raw(v, n);
    let k = d / o;
    let (vx, vy, vz) = (v.x as int, v.y as int, v.z as int);
    let (nx, ny, nz) = (n.x as int, n.y as int, n.z as int);
    vstd::arithmetic::div_mod::lemma_fundamental_div_mod(d, o);
    assert(d == k * o);
    let qx = fmul(2 * k, nx);
    let qy = fmul(2 * k, ny);
    let qz = fmul(2 * k, nz);
    vstd::arithmetic::div_mod::lemma_fundamental_div_mod(2 * k * nx, o);
    vstd::arithmetic::div_mod::lemma_fundamental_div_mod(2 * k * ny, o);
    vstd::arithmetic::div_mod::lemma_fundamental_div_mod(2 * k * nz, o);
    assert(2 * k * nx == o * qx);
    assert(2 * k * ny == o * qy);
    assert(2 * k * nz == o * qz);
    let m = NORMAL_MAX as int;
    assert(-6 * o * o <= d <= 6 * o * o) by (nonlinear_arith)
        requires
            -o <= vx <= o,
            -o <= vy <= o,
            -o <= vz <= o,
            -m <= nx <= m,
            -m <= ny <= m,
            -m <= nz <= m,
            m == 2 * o,
            d == vx * nx + vy * ny + vz * nz,
    ;
    assert(-6 * o <= k <= 6 * o) by (nonlinear_arith)
        requires
            d == k * o,
            -6 * o * o <= d <= 6 * o * o,
            o > 0,
    ;
    assert(-24 * o <= qx <= 24 * o && -24 * o <= qy <= 24 * o && -24 * o <= qz <= 24 * o)
        by (nonlinear_arith)
        requires
            2 * k * nx == o * qx,
            2 * k * ny == o * qy,
            2 * k * nz == o * qz,
            -6 * o <= k <= 6 * o,
            -m <= nx <= m,
            -m <= ny <= m,
            -m <= nz <= m,
            m == 2 * o,
            o > 0,
    ;
    let r = reflect_spec(v, n);
    assert(r.x == vx - qx && r.y == vy - qy && r.z == vz - qz);
    assert(nx * nx + ny * ny + nz * nz == o * o);
    lemma_scaled_product(o, qx, 2 * k, nx, nx);
    lemma_scaled_product(o, qy, 2 * k, ny, ny);
    lemma_scaled_product(o, qz, 2 * k, nz, nz);
    lemma_sum_scaled(o, qx * nx, qy * ny, qz * nz);
    lemma_sum_scaled(2 * k, nx * nx, ny * ny, nz * nz);
    assert(o * (qx * nx + qy * ny + qz * nz) == 2 * k * (o * o));
    assert(qx * nx + qy * ny + qz * nz == 2 * k * o) by (nonlinear_arith)
        requires
            o * (qx * nx + qy * ny + qz * nz) == 2 * k * (o * o),
            o > 0,
    ;
    assert(dot_raw(r, n) == (vx - qx) * nx + (vy - qy) * ny + (vz - qz) * nz);
    assert((vx - qx) * nx + (vy - qy) * ny + (vz - qz) * nz == d - (qx * nx + qy * ny + qz * nz))
        by (nonlinear_arith)
        requires
            d == vx * nx + vy * ny + vz * nz,
    ;
    lemma_scaled_product(o, qx, 2 * k, nx, vx);
    lemma_scaled_product(o, qy, 2 * k, ny, vy);
    lemma_scaled_product(o, qz, 2 * k, nz, vz);
    assert(vx * qx == qx * vx && vy * qy == qy * vy && vz * qz == qz * vz) by (nonlinear_arith);
    assert(vx * nx + vy * ny + vz * nz == nx * vx + ny * vy + nz * vz) by (nonlinear_arith);
    lemma_sum_scaled(o, vx * qx, vy * qy, vz * qz);
    lemma_sum_scaled(2 * k, nx * vx, ny * vy, nz * vz);
    assert(o * (vx * qx + vy * qy + vz * qz) == 2 * k * d);
    assert(vx * qx + vy * qy + vz * qz == 2 * k * k) by (nonlinear_arith)
        requires
            o * (vx * qx + vy * qy + vz * qz) == 2 * k * d,
            d == k * o,
            o > 0,
    ;
    lemma_square_of_scaled(o, qx, 2 * k, nx);
    lemma_square_of_scaled(o, qy, 2 * k, ny);
    lemma_square_of_scaled(o, qz, 2 * k, nz);
    lemma_sum_scaled(o * o, qx * qx, qy * qy, qz * qz);
    lemma_sum_scaled((2 * k) * (2 * k), nx * nx, ny * ny, nz * nz);
    assert((2 * k) * (2 * k) * (o * o) == 4 * k * k * (o * o)) by (nonlinear_arith);
    assert((o * o) * (qx * qx + qy * qy + qz * qz) == 4 * k * k * (o * o));
    assert(qx * qx + qy * qy + qz * qz == 4 * k * k) by (nonlinear_arith)
        requires
            (o * o) * (qx * qx + qy * qy + qz * qz) == 4 * k * k * (o * o),
            o > 0,
    ;
    assert(norm2(r) == (vx - qx) * (vx - qx) + (vy - qy) * (vy - qy) + (vz - qz) * (vz - qz));
    assert((vx - qx) * (vx - qx) + (vy - qy) * (vy - qy) + (vz - qz) * (vz - qz) == (vx * vx + vy
        * vy + vz * vz) - 2 * (vx * qx + vy * qy + vz * qz) + (qx * qx + qy * qy + qz * qz))
        by (nonlinear_arith);
    assert(norm2(v) == vx * vx + vy * vy + vz * vz);
    assert(2 * (2 * k * k) == 4 * k * k) by (nonlinear_arith);
    assert(norm2(r) == norm2(v) - 2 * (2 * k * k) + 4 * k * k);
    assert(norm2(r) == norm2(v));
}

/// From `f * n == o * q`: `o * (q * w) == f * (n * w)`.
proof fn lemma_scaled_product(o: int, q: int, f: int, n: int, w: int)
    requires
        f * n == o * q,
    ensures
        o * (q * w) == f * (n * w),
{
    assert(o * (q * w) == (o * q) * w) by (nonlinear_arith);
    assert(f * (n * w) == (f * n) * w) by (nonlinear_arith);
}

/// From `f * n == o * q`: `(o * o) * (q * q) == (f * f) * (n * n)`.
proof fn lemma_square_of_scaled(o: int, q: int, f: int, n: int)
    requires
        f * n == o * q,
    ensures
        (o * o) * (q * q) == (f * f) * (n * n),
{
    assert((o * o) * (q * q) == (o * q) * (o * q)) by (nonlinear_arith);
    assert((f * f) * (n * n) == (f * n) * (f * n)) by (nonlinear_arith);
}

} // verus!
