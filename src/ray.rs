//! Points, rays and the record of a ray meeting a surface.
use vstd::prelude::*;
use crate::fixed::{div_floor, COORD_MAX, ONE};
use crate::material::Material;
use crate::vec3::{fits, fmul, Vec3};

verus! {

/// A position in space.
#[derive(Debug, Copy, Clone, PartialEq, Eq, Structural)]
pub struct Point3(pub Vec3);

impl Point3 {
    pub open spec fn wf(&self) -> bool {
        self.0.wf()
    }

    pub fn new(x: i64, y: i64, z: i64) -> (p: Point3)
        ensures
            p == Point3(Vec3 { x, y, z }),
    {
        Point3(Vec3 { x, y, z })
    }

    /// The point moved by `v`.
    pub fn add(self, v: Vec3) -> (p: Point3)
        requires
            fits(self.0.x + v.x),
            fits(self.0.y + v.y),
            fits(self.0.z + v.z),
        ensures
            p.0 == (Vec3 {
                x: (self.0.x + v.x) as i64,
                y: (self.0.y + v.y) as i64,
                z: (self.0.z + v.z) as i64,
            }),
            p.wf(),
    {
        Point3(self.0.add(v))
    }

    /// Moves the point by `v` in place.
    pub fn add_assign(&mut self, v: Vec3)
        requires
            fits(old(self).0.x + v.x),
            fits(old(self).0.y + v.y),
            fits(old(self).0.z + v.z),
        ensures
            final(self).0 == (Vec3 {
                x: (old(self).0.x + v.x) as i64,
                y: (old(self).0.y + v.y) as i64,
                z: (old(self).0.z + v.z) as i64,
            }),
    {
        self.0.add_assign(v);
    }

    /// The vector from `o` to `self`.
    pub fn sub(self, o: Point3) -> (v: Vec3)
        requires
            fits(self.0.x - o.0.x),
            fits(self.0.y - o.0.y),
            fits(self.0.z - o.0.z),
        ensures
            v == (Vec3 {
                x: (self.0.x - o.0.x) as i64,
                y: (self.0.y - o.0.y) as i64,
                z: (self.0.z - o.0.z) as i64,
            }),
            v.wf(),
    {
        self.0.sub(o.0)
    }

    /// The point moved by `-v`.
    pub fn sub_vec(self, v: Vec3) -> (p: Point3)
        requires
            fits(self.0.x - v.x),
            fits(self.0.y - v.y),
            fits(self.0.z - v.z),
        ensures
            p.0 == (Vec3 {
                x: (self.0.x - v.x) as i64,
                y: (self.0.y - v.y) as i64,
                z: (self.0.z - v.z) as i64,
            }),
            p.wf(),
    {
        Point3(self.0.sub(v))
    }
}

/// A half-line `origin + t * direction`.
#[derive(Debug, Copy, Clone, PartialEq, Eq, Structural)]
pub struct Ray {
    pub orig: Point3,
    pub dir: Vec3,
}

/// One coordinate of `o + t * d`.
pub open spec fn at_coord(o: int, t: int, d: int) -> int {
    o + fmul(t, d)
}

/// The point `r.orig + t * r.dir`, where every coordinate fits.
pub open spec fn at_spec(r: Ray, t: int) -> Point3 {
    Point3(
        Vec3 {
            x: at_coord(r.orig.0.x as int, t, r.dir.x as int) as i64,
            y: at_coord(r.orig.0.y as int, t, r.dir.y as int) as i64,
            z: at_coord(r.orig.0.z as int, t, r.dir.z as int) as i64,
        },
    )
}

/// `r.orig + t * r.dir` can be held as a point.
pub open spec fn at_fits(r: Ray, t: int) -> bool {
    &&& fits(at_coord(r.orig.0.x as int, t, r.dir.x as int))
    &&& fits(at_coord(r.orig.0.y as int, t, r.dir.y as int))
    &&& fits(at_coord(r.orig.0.z as int, t, r.dir.z as int))
}

impl Ray {
    /// The origin is a point and the direction a vector that is not zero.
    pub open spec fn wf(&self) -> bool {
        self.orig.wf() && self.dir.wf() && self.dir.nonzero()
    }

    pub fn new(origin: Point3, direction: Vec3) -> (r: Ray)
        ensures
            r == (Ray { orig: origin, dir: direction }),
    {
        Ray { orig: origin, dir: direction }
    }

    pub fn origin(&self) -> (p: Point3)
        ensures
            p == self.orig,
    {
        self.orig
    }

    pub fn direction(&self) -> (v: Vec3)
        ensures
            v == self.dir,
    {
        self.dir
    }

    /// The point at parameter `t`, or `None` where a coordinate would not fit.
    pub fn at(&self, t: i64) -> (p: Option<Point3>)
        requires
            self.wf(),
        ensures
            p == (if at_fits(*self, t as int) {
                Some(at_spec(*self, t as int))
            } else {
                None::<Point3>
            }),
    {
        let x = at_coord_exec(self.orig.0.x, t, self.dir.x);
        let y = at_coord_exec(self.orig.0.y, t, self.dir.y);
        let z = at_coord_exec(self.orig.0.z, t, self.dir.z);
        if -(COORD_MAX as i128) <= x && x <= COORD_MAX as i128 && -(COORD_MAX as i128) <= y && y
            <= COORD_MAX as i128 && -(COORD_MAX as i128) <= z && z <= COORD_MAX as i128 {
            Some(Point3(Vec3 { x: x as i64, y: y as i64, z: z as i64 }))
        } else {
            None
        }
    }
}

fn at_coord_exec(o: i64, t: i64, d: i64) -> (r: i128)
    requires
        fits(o as int),
        fits(d as int),
    ensures
        r == at_coord(o as int, t as int, d as int),
{
    proof {
        assert(-0x4000_0000_0000_0000_0000_0000_0000 <= (t as int) * (d as int)
            <= 0x4000_0000_0000_0000_0000_0000_0000) by (nonlinear_arith)
            requires
                i64::MIN <= t <= i64::MAX,
                -COORD_MAX <= d <= COORD_MAX,
                COORD_MAX == 0x4000_0000,
        ;
        vstd::arithmetic::div_mod::lemma_div_is_ordered(
            (t as int) * (d as int),
            0x4000_0000_0000_0000_0000_0000_0000,
            ONE as int,
        );
        vstd::arithmetic::div_mod::lemma_div_is_ordered(
            -0x4000_0000_0000_0000_0000_0000_0000,
            (t as int) * (d as int),
            ONE as int,
        );
    }
    (o as i128) + div_floor((t as i128) * (d as i128), ONE as i128)
}

/// Something a ray can be tested against.
pub trait Hittable {
    /// The object is well formed.
    spec fn valid(&self) -> bool;

    /// The hit of `r` with its parameter in `[t_min, t_max)`, if any.
    spec fn hit_spec(&self, r: Ray, t_min: int, t_max: int) -> Option<HitRecord>;

    /// Where `r` meets the object with its parameter in `[t_min, t_max)`, as
    /// `hit_spec` says. A surface point whose position or normal cannot be held
    /// in fixed point gives no hit: for a sphere, a root in range whose record
    /// cannot be held gives `None`, and the farther root is then not tried.
    fn hit(&self, r: &Ray, t_min: i64, t_max: i64) -> (h: Option<HitRecord>)
        requires
            self.valid(),
            r.wf(),
            0 < t_min,
        ensures
            h == self.hit_spec(*r, t_min as int, t_max as int),
            h matches Some(rec) ==> rec.wf() && t_min <= rec.t < t_max,
    ;
}

/// Largest magnitude of a component of a recorded surface normal.
pub const NORMAL_MAX: i64 = 2 * ONE;

/// Where a ray met a surface.
#[derive(Debug, Copy, Clone, PartialEq, Eq, Structural)]
pub struct HitRecord {
    pub p: Point3,
    pub normal: Vec3,
    pub t: i64,
    pub front_face: bool,
    pub material: Material,
}

/// A surface normal: close to unit length, hence small and not zero.
pub open spec fn normal_ok(n: Vec3) -> bool {
    &&& -NORMAL_MAX <= n.x <= NORMAL_MAX
    &&& -NORMAL_MAX <= n.y <= NORMAL_MAX
    &&& -NORMAL_MAX <= n.z <= NORMAL_MAX
    &&& n.nonzero()
}

impl HitRecord {
    pub open spec fn wf(&self) -> bool {
        &&& self.p.wf()
        &&& normal_ok(self.normal)
        &&& self.t > 0
        &&& self.material.wf()
    }

    pub fn new(p: Point3, normal: Vec3, t: i64, front_face: bool, material: Material) -> (h:
        HitRecord)
        requires
            t > 0,
        ensures
            h == (HitRecord { p, normal, t, front_face, material }),
    {
        HitRecord { p, normal, t, front_face, material }
    }

    pub fn hit_point(&self) -> (p: Point3)
        ensures
            p == self.p,
    {
        self.p
    }

    pub fn normal(&self) -> (n: Vec3)
        ensures
            n == self.normal,
    {
        self.normal
    }

    pub fn t(&self) -> (t: i64)
        ensures
            t == self.t,
    {
        self.t
    }

    pub fn front_face(&self) -> (f: bool)
        ensures
            f == self.front_face,
    {
        self.front_face
    }

    pub fn material(&self) -> (m: Material)
        ensures
            m == self.material,
    {
        self.material
    }
}

} // verus!
