//! The camera: maps image-plane coordinates to rays.
use vstd::prelude::*;
use crate::fixed::ONE;
use crate::ray::{Point3, Ray};
use crate::vec3::{fmul, Vec3};

verus! {

/// Largest magnitude of a camera coordinate (raw units).
pub const CAMERA_MAX: i64 = 16 * ONE;

pub struct Camera {
    pub origin: Point3,
    pub ll_corner: Point3,
    pub horizontal: Vec3,
    pub vertical: Vec3,
}

pub open spec fn small(v: Vec3) -> bool {
    -CAMERA_MAX <= v.x <= CAMERA_MAX && -CAMERA_MAX <= v.y <= CAMERA_MAX && -CAMERA_MAX <= v.z
        <= CAMERA_MAX
}

/// One coordinate of `ll + u * h + v * w - origin`.
pub open spec fn dir_coord(ll: int, u: int, h: int, v: int, w: int, o: int) -> int {
    ll + fmul(u, h) + fmul(v, w) - o
}

/// The direction of the ray through `(u, v)` of the image plane.
pub open spec fn ray_dir(c: Camera, u: int, v: int) -> Vec3 {
    Vec3 {
        x: dir_coord(c.ll_corner.0.x as int, u, c.horizontal.x as int, v, c.vertical.x as int, c.origin.0.x as int) as i64,
        y: dir_coord(c.ll_corner.0.y as int, u, c.horizontal.y as int, v, c.vertical.y as int, c.origin.0.y as int) as i64,
        z: dir_coord(c.ll_corner.0.z as int, u, c.horizontal.z as int, v, c.vertical.z as int, c.origin.0.z as int) as i64,
    }
}

/// Aspect ratio 16:9 (1.7777...), in fixed point, rounded down.
pub const ASPECT_RATIO: i64 = 116508;
/// Height of the viewport.
pub const VIEWPORT_HEIGHT: i64 = 2 * ONE;
/// Distance from the origin to the image plane.
pub const FOCAL_LENGTH: i64 = ONE;

impl Camera {
    /// The camera's vectors are small, and the image plane lies in front of the
    /// origin along `-z`, parallel to the `x`-`y` plane.
    pub open spec fn wf(&self) -> bool {
        &&& small(self.origin.0)
        &&& small(self.ll_corner.0)
        &&& small(self.horizontal)
        &&& small(self.vertical)
        &&& self.horizontal.z == 0
        &&& self.vertical.z == 0
        &&& self.ll_corner.0.z != self.origin.0.z
    }

    /// The camera at the coordinate origin looking along `-z`, with aspect
    /// ratio 16:9, viewport height 2 and focal length 1.
    pub fn new() -> (c: Camera)
        ensures
            c.wf(),
            c.origin == Point3(Vec3 { x: 0, y: 0, z: 0 }),
            c.horizontal == (Vec3 { x: 233016, y: 0, z: 0 }),
            c.vertical == (Vec3 { x: 0, y: 131072, z: 0 }),
            c.ll_corner == Point3(Vec3 { x: -116508i64, y: -65536i64, z: -65536i64 }),
    {
        let viewport_width = scaled(VIEWPORT_HEIGHT, ASPECT_RATIO);
        assert(viewport_width == 233016) by {
            assert(131072 * 116508 == 233016 * 65536);
            vstd::arithmetic::div_mod::lemma_fundamental_div_mod_converse(131072int * 116508, 65536, 233016, 0);
        }
        let origin = Point3::new(0, 0, 0);
        let horizontal = Vec3::new(viewport_width, 0, 0);
        let vertical = Vec3::new(0, VIEWPORT_HEIGHT, 0);
        let ll_corner = origin.sub_vec(horizontal.div(2 * ONE)).sub_vec(vertical.div(2 * ONE)).sub_vec(
            Vec3::new(0, 0, FOCAL_LENGTH),
        );
        Camera { origin, ll_corner, horizontal, vertical }
    }

    /// The ray from the origin through `ll_corner + u * horizontal + v * vertical`.
    pub fn get_ray(&self, u: i64, v: i64) -> (r: Ray)
        requires
            self.wf(),
            0 <= u <= 2 * ONE,
            0 <= v <= 2 * ONE,
        ensures
            r == (Ray { orig: self.origin, dir: ray_dir(*self, u as int, v as int) }),
            r.wf(),
    {
        let x = dir_coord_exec(self.ll_corner.0.x, u, self.horizontal.x, v, self.vertical.x, self.origin.0.x);
        let y = dir_coord_exec(self.ll_corner.0.y, u, self.horizontal.y, v, self.vertical.y, self.origin.0.y);
        let z = dir_coord_exec(self.ll_corner.0.z, u, self.horizontal.z, v, self.vertical.z, self.origin.0.z);
        proof {
            assert(fmul(u as int, 0) == 0);
            assert(fmul(v as int, 0) == 0);
        }
        Ray { orig: self.origin, dir: Vec3 { x, y, z } }
    }
}

fn dir_coord_exec(ll: i64, u: i64, h: i64, v: i64, w: i64, o: i64) -> (r: i64)
    requires
        -CAMERA_MAX <= ll <= CAMERA_MAX,
        -CAMERA_MAX <= h <= CAMERA_MAX,
        -CAMERA_MAX <= w <= CAMERA_MAX,
        -CAMERA_MAX <= o <= CAMERA_MAX,
        0 <= u <= 2 * ONE,
        0 <= v <= 2 * ONE,
    ensures
        r == dir_coord(ll as int, u as int, h as int, v as int, w as int, o as int),
        -96 * ONE <= r <= 96 * ONE,
{
    let a = scaled(u, h);
    let b = scaled(v, w);
    ll + a + b - o
}

/// `u * h` in fixed point, for a small `h` and `u` in `[0, 2]`.
fn scaled(u: i64, h: i64) -> (r: i64)
    requires
        -CAMERA_MAX <= h <= CAMERA_MAX,
        0 <= u <= 2 * ONE,
    ensures
        r == fmul(u as int, h as int),
        -32 * ONE <= r <= 32 * ONE,
{
    proof {
        let b = 32 * (ONE as int) * (ONE as int);
        assert(-b <= u * h <= b) by (nonlinear_arith)
            requires
                -16 * ONE <= h <= 16 * ONE,
                0 <= u <= 2 * ONE,
                b == 32 * (ONE as int) * (ONE as int),
        ;
        vstd::arithmetic::div_mod::lemma_div_is_ordered(u * h, b, ONE as int);
        vstd::arithmetic::div_mod::lemma_div_is_ordered(-b, u * h, ONE as int);
        vstd::arithmetic::div_mod::lemma_fundamental_div_mod_converse(b, ONE as int, 32 * (ONE as int), 0);
        vstd::arithmetic::div_mod::lemma_fundamental_div_mod_converse(-b, ONE as int, -32 * (ONE as int), 0);
    }
    crate::fixed::div_floor((u as i128) * (h as i128), ONE as i128) as i64
}

} // verus!
