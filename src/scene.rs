//! A scene: the spheres that rays are tested against.
use vstd::prelude::*;
use crate::ray::{HitRecord, Hittable, Ray};
use crate::sphere::{lemma_hit_in_range, lemma_hit_within_smaller_bound, sphere_hit_spec, Sphere};

verus! {

pub struct Scene {
    pub objects: Vec<Sphere>,
}

/// The nearest hit among the first `n` objects, found as a scan that
/// lowers its upper bound to each hit it keeps.
pub open spec fn scan(objs: Seq<Sphere>, r: Ray, t_min: int, t_max: int, n: nat) -> Option<
    HitRecord,
>
    decreases n,
{
    if n == 0 {
        None
    } else {
        let prev = scan(objs, r, t_min, t_max, (n - 1) as nat);
        let bound = match prev {
            Some(h) => h.t as int,
            None => t_max,
        };
        match sphere_hit_spec(objs[n - 1], r, t_min, bound) {
            Some(h) => Some(h),
            None => prev,
        }
    }
}

/// The nearest hit of `r` in the scene with its parameter in `[t_min, t_max)`.
pub open spec fn scene_hit_spec(objs: Seq<Sphere>, r: Ray, t_min: int, t_max: int) -> Option<
    HitRecord,
> {
    scan(objs, r, t_min, t_max, objs.len())
}

impl Scene {
    pub open spec fn wf(&self) -> bool {
        forall|i: int| 0 <= i < self.objects.len() ==> #[trigger] self.objects[i].wf()
    }

}

impl Hittable for Scene {
    open spec fn valid(&self) -> bool {
        self.wf()
    }

    open spec fn hit_spec(&self, r: Ray, t_min: int, t_max: int) -> Option<HitRecord> {
        scene_hit_spec(self.objects@, r, t_min, t_max)
    }

    /// The nearest hit across all objects, or `None`.
    fn hit(&self, r: &Ray, t_min: i64, t_max: i64) -> (h: Option<HitRecord>) {
        let mut closest: Option<HitRecord> = None;
        let mut bound: i64 = t_max;
        let mut i: usize = 0;
        while i < self.objects.len()
            invariant
                self.wf(),
                r.wf(),
                0 < t_min,
                i <= self.objects.len(),
                closest == scan(self.objects@, *r, t_min as int, t_max as int, i as nat),
                bound == (match closest {
                    Some(h) => h.t,
                    None => t_max,
                }),
                closest matches Some(rec) ==> rec.wf() && t_min <= rec.t < t_max,
            decreases self.objects.len() - i,
        {
            match self.objects[i].hit(r, t_min, bound) {
                Some(rec) => {
                    bound = rec.t;
                    closest = Some(rec);
                },
                None => {},
            }
            i = i + 1;
        }
        closest
    }
}

} // verus!

verus! {

proof fn lemma_scan_in_range(objs: Seq<Sphere>, r: Ray, t_min: int, t_max: int, n: nat)
    requires
        n <= objs.len(),
        forall|j: int| 0 <= j < objs.len() ==> #[trigger] objs[j].wf(),
        i64::MIN <= t_min,
        t_max <= i64::MAX,
    ensures
        scan(objs, r, t_min, t_max, n) matches Some(h) ==> t_min <= h.t < t_max,
    decreases n,
{
    if n > 0 {
        lemma_scan_in_range(objs, r, t_min, t_max, (n - 1) as nat);
        let prev = scan(objs, r, t_min, t_max, (n - 1) as nat);
        let bound = match prev {
            Some(h) => h.t as int,
            None => t_max,
        };
        lemma_hit_in_range(objs[n - 1], r, t_min, bound);
    }
}

proof fn lemma_scan_nearest(objs: Seq<Sphere>, r: Ray, t_min: int, t_max: int, n: nat, i: int)
    requires
        n <= objs.len(),
        0 <= i < n,
        forall|j: int| 0 <= j < objs.len() ==> #[trigger] objs[j].wf(),
        r.wf(),
        i64::MIN <= t_min,
        t_max <= i64::MAX,
        sphere_hit_spec(objs[i], r, t_min, t_max) is Some,
    ensures
        scan(objs, r, t_min, t_max, n) is Some,
        scan(objs, r, t_min, t_max, n)->Some_0.t <= sphere_hit_spec(objs[i], r, t_min, t_max)->Some_0.t,
    decreases n,
{
    let prev = scan(objs, r, t_min, t_max, (n - 1) as nat);
    let bound = match prev {
        Some(h) => h.t as int,
        None => t_max,
    };
    let hi = sphere_hit_spec(objs[i], r, t_min, t_max)->Some_0;
    lemma_scan_in_range(objs, r, t_min, t_max, (n - 1) as nat);
    lemma_hit_in_range(objs[n - 1], r, t_min, bound);
    if i < n - 1 {
        lemma_scan_nearest(objs, r, t_min, t_max, (n - 1) as nat, i);
    } else {
        match prev {
            None => {},
            Some(p) => {
                if hi.t < p.t {
                    lemma_hit_within_smaller_bound(objs[i], r, t_min, t_max, p.t as int);
                }
            },
        }
    }
}

/// The scan finds the nearest surface: wherever some object of the scene is
/// hit within `[t_min, t_max)`, the scene reports a hit that is no farther.
pub proof fn lemma_scene_hit_is_nearest(objs: Seq<Sphere>, r: Ray, t_min: int, t_max: int, i: int)
    requires
        0 <= i < objs.len(),
        forall|j: int| 0 <= j < objs.len() ==> #[trigger] objs[j].wf(),
        r.wf(),
        i64::MIN <= t_min,
        t_max <= i64::MAX,
        sphere_hit_spec(objs[i], r, t_min, t_max) is Some,
    ensures
        scene_hit_spec(objs, r, t_min, t_max) is Some,
        scene_hit_spec(objs, r, t_min, t_max)->Some_0.t <= sphere_hit_spec(objs[i], r, t_min, t_max)->Some_0.t,
{
    lemma_scan_nearest(objs, r, t_min, t_max, objs.len(), i);
}

} // verus!
