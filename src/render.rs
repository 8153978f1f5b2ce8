//! The recursive radiance estimate and the multi-sample pixel colour.
use vstd::prelude::*;
use crate::camera::{ray_dir, Camera};
use crate::color::{
    black, channel_ok, color_mul, gamma_spec, quantize_spec, Color, COLOR_ONE,
};
use crate::fixed::{div_floor, ONE};
use crate::material::{lambertian_dir, metal_scatter_spec, Material};
use crate::random::in_unit_shell;
use rand::rngs::ThreadRng;
use crate::ray::{HitRecord, Hittable, Ray};
use crate::vec3::{norm2, normalize_spec, Vec3};

verus! {

/// Smallest parameter of a hit: 0.001 in fixed point, which skips the
/// surface a ray leaves from.
pub const T_MIN: i64 = 65;

/// The parameter bound that stands for infinity.
pub const T_INFINITY: i64 = 0x7fff_ffff_ffff_ffff;

/// The sky colour at the top of the gradient: (0.5, 0.7, 1.0).
pub const SKY_R: i64 = 512;
pub const SKY_G: i64 = 716;
pub const SKY_B: i64 = 1024;

/// `(1 - t) a + t b` for `t` in `[0, ONE]`, rounded down.
pub open spec fn lerp(t: int, a: int, b: int) -> int {
    (((ONE as int) - t) * a + t * b) / (ONE as int)
}

/// The sky seen along a ray that meets nothing: a vertical gradient from
/// white to sky blue by the `y` component of the unit direction.
pub open spec fn sky_at(unit_y: int) -> Color {
    let t = (unit_y + ONE) / 2;
    Color {
        r: lerp(t, COLOR_ONE as int, SKY_R as int) as i64,
        g: lerp(t, COLOR_ONE as int, SKY_G as int) as i64,
        b: lerp(t, COLOR_ONE as int, SKY_B as int) as i64,
    }
}

pub open spec fn sky_spec(dir: Vec3) -> Color {
    sky_at(normalize_spec(dir).y as int)
}

fn lerp_exec(t: i64, a: i64, b: i64) -> (c: i64)
    requires
        0 <= t <= ONE,
        channel_ok(a as int),
        channel_ok(b as int),
    ensures
        c == lerp(t as int, a as int, b as int),
        channel_ok(c as int),
{
    proof {
        let o = ONE as int;
        let k = COLOR_ONE as int;
        assert(0 <= (o - t) * a + t * b <= o * k) by (nonlinear_arith)
            requires
                0 <= t <= o,
                0 <= a <= k,
                0 <= b <= k,
        ;
        vstd::arithmetic::div_mod::lemma_div_is_ordered(0, (o - t) * a + t * b, o);
        vstd::arithmetic::div_mod::lemma_div_is_ordered((o - t) * a + t * b, o * k, o);
        vstd::arithmetic::div_mod::lemma_fundamental_div_mod_converse(o * k, o, k, 0);
    }
    div_floor((ONE - t) as i128 * a as i128 + t as i128 * b as i128, ONE as i128) as i64
}

/// The sky colour along `dir`.
pub fn sky_color(dir: Vec3) -> (c: Color)
    requires
        dir.wf(),
        dir.nonzero(),
    ensures
        c == sky_spec(dir),
        c.wf(),
{
    let u = dir.normalize();
    let t = (u.y + ONE) / 2;
    Color {
        r: lerp_exec(t, COLOR_ONE, SKY_R),
        g: lerp_exec(t, COLOR_ONE, SKY_G),
        b: lerp_exec(t, COLOR_ONE, SKY_B),
    }
}

/// The colour carried back along `r` within `depth` bounces, where diffuse
/// scattering takes its random points of the unit shell from `draws`, one per
/// diffuse bounce, in order: black once no bounce is left, the sky where
/// nothing is hit, black where a metal absorbs, and otherwise the attenuation
/// times the colour carried back along the scattered ray within `depth - 1`
/// bounces.
pub open spec fn radiance<H: Hittable>(world: H, r: Ray, depth: int, draws: Seq<Vec3>) -> Color
    decreases depth,
{
    if depth <= 0 {
        black()
    } else {
        match world.hit_spec(r, T_MIN as int, T_INFINITY as int) {
            None => sky_spec(r.dir),
            Some(h) => match h.material {
                Material::Metal(m) => match metal_scatter_spec(m.albedo, r, h) {
                    None => black(),
                    Some((att, s)) => color_mul(att, radiance(world, s, depth - 1, draws)),
                },
                Material::Lambertian(l) => color_mul(
                    l.albedo,
                    radiance(world, diffuse_ray(h, draws[0]), depth - 1, draws.drop_first()),
                ),
            },
        }
    }
}

/// Random points that diffuse scattering may draw: each in the unit shell.
pub open spec fn draws_ok(draws: Seq<Vec3>) -> bool {
    forall|i: int| 0 <= i < draws.len() ==> in_unit_shell(#[trigger] draws[i])
}

/// A point of the unit shell that stands for draws that are never read.
pub open spec fn spare_draw() -> Vec3 {
    Vec3 { x: 0x8000, y: 0, z: 0 }
}

/// `n` spare draws.
pub open spec fn spare_draws(n: int) -> Seq<Vec3> {
    Seq::new(n as nat, |i: int| spare_draw())
}

proof fn lemma_spare_draws_ok(n: int)
    requires
        n >= 0,
    ensures
        draws_ok(spare_draws(n)),
        spare_draws(n).len() == n,
{
    let v = spare_draw();
    assert(norm2(v) == 0x4000_0000) by (nonlinear_arith)
        requires
            v.x == 0x8000,
            v.y == 0,
            v.z == 0,
            norm2(v) == v.x * v.x + v.y * v.y + v.z * v.z,
    ;
    assert forall|i: int| 0 <= i < spare_draws(n).len() implies in_unit_shell(
        #[trigger] spare_draws(n)[i],
    ) by {}
}

/// Draws past the `depth` that a radiance estimate can read change nothing.
pub proof fn lemma_radiance_extend<H: Hittable>(
    world: H,
    r: Ray,
    depth: int,
    d: Seq<Vec3>,
    e: Seq<Vec3>,
)
    requires
        d.len() >= depth,
    ensures
        radiance(world, r, depth, d + e) == radiance(world, r, depth, d),
    decreases depth,
{
    if depth > 0 {
        match world.hit_spec(r, T_MIN as int, T_INFINITY as int) {
            None => {},
            Some(h) => match h.material {
                Material::Metal(m) => match metal_scatter_spec(m.albedo, r, h) {
                    None => {},
                    Some((att, s)) => {
                        lemma_radiance_extend(world, s, depth - 1, d, e);
                    },
                },
                Material::Lambertian(l) => {
                    assert((d + e)[0] == d[0]);
                    assert((d + e).drop_first() =~= d.drop_first() + e);
                    lemma_radiance_extend(world, diffuse_ray(h, d[0]), depth - 1, d.drop_first(), e);
                },
            },
        }
    }
}

/// `c` is the colour carried back along `r` within `depth` bounces for some
/// random draws.
pub open spec fn radiance_ok<H: Hittable>(world: H, r: Ray, depth: int, c: Color) -> bool {
    &&& c.wf()
    &&& exists|draws: Seq<Vec3>|
        draws.len() >= depth && draws_ok(draws) && c == #[trigger] radiance(world, r, depth, draws)
}

/// The ray scattered diffusely at `h` for the random point `v` of the unit shell.
pub open spec fn diffuse_ray(h: HitRecord, v: Vec3) -> Ray {
    Ray { orig: h.p, dir: lambertian_dir(h.normal, normalize_spec(v)) }
}

/// The colour carried back along `r`, following at most `depth` bounces.
pub fn ray_color<H: Hittable>(r: &Ray, world: &H, depth: i32, rng: &mut ThreadRng) -> (c: Color)
    requires
        r.wf(),
        world.valid(),
    ensures
        radiance_ok(*world, *r, depth as int, c),
    decreases depth,
{
    if depth <= 0 {
        let c = Color::black();
        assert(Seq::<Vec3>::empty().len() >= depth && draws_ok(Seq::<Vec3>::empty()) && c == radiance(
            *world,
            *r,
            depth as int,
            Seq::<Vec3>::empty(),
        ));
        return c;
    }
    match world.hit(r, T_MIN, T_INFINITY) {
        Some(rec) => match rec.material.scatter(r, &rec, rng) {
            Some((attenuation, scattered)) => {
                let c2 = ray_color(&scattered, world, depth - 1, rng);
                let c = attenuation.mul(c2);
                proof {
                    let d2 = choose|d: Seq<Vec3>|
                        d.len() >= depth as int - 1 && draws_ok(d) && c2 == #[trigger] radiance(
                            *world,
                            scattered,
                            depth as int - 1,
                            d,
                        );
                    if rec.material is Lambertian {
                        let v = choose|v: Vec3|
                            in_unit_shell(v) && scattered == diffuse_ray(rec, v);
                        let d = seq![v] + d2;
                        assert(d[0] == v);
                        assert(d.drop_first() =~= d2);
                        assert forall|i: int| 0 <= i < d.len() implies in_unit_shell(#[trigger] d[i]) by {
                            if i > 0 {
                                assert(d[i] == d2[i - 1]);
                            }
                        }
                        assert(d.len() >= depth && draws_ok(d) && c == radiance(*world, *r, depth as int, d));
                    } else {
                        lemma_spare_draws_ok(1);
                        let d = d2 + spare_draws(1);
                        lemma_radiance_extend(*world, scattered, depth as int - 1, d2, spare_draws(1));
                        assert forall|i: int| 0 <= i < d.len() implies in_unit_shell(#[trigger] d[i]) by {
                            if i >= d2.len() {
                                assert(d[i] == spare_draws(1)[i - d2.len()]);
                            }
                        }
                        assert(d.len() >= depth && draws_ok(d) && c == radiance(*world, *r, depth as int, d));
                    }
                }
                c
            },
            None => {
                let c = Color::black();
                proof {
                    lemma_spare_draws_ok(depth as int);
                }
                assert(c == radiance(*world, *r, depth as int, spare_draws(depth as int)));
                c
            },
        },
        None => {
            let c = sky_color(r.dir);
            proof {
                lemma_spare_draws_ok(depth as int);
            }
            assert(c == radiance(*world, *r, depth as int, spare_draws(depth as int)));
            c
        },
    }
}

/// Largest number of samples per pixel.
pub const MAX_SAMPLES: usize = 0x10_0000;

/// Largest image width or height.
pub const MAX_DIM: u32 = 0x10_0000;

/// One channel of a colour: 0 red, 1 green, 2 blue.
pub open spec fn channel(c: Color, k: int) -> int {
    if k == 0 {
        c.r as int
    } else if k == 1 {
        c.g as int
    } else {
        c.b as int
    }
}

/// The sum of channel `k` over the colours of `s`.
pub open spec fn channel_sum(s: Seq<Color>, k: int) -> int
    decreases s.len(),
{
    if s.len() == 0 {
        0
    } else {
        channel_sum(s.drop_last(), k) + channel(s.last(), k)
    }
}

/// The mean of the colours of `s`, each channel rounded down.
pub open spec fn average_spec(s: Seq<Color>) -> Color {
    Color {
        r: (channel_sum(s, 0) / s.len() as int) as i64,
        g: (channel_sum(s, 1) / s.len() as int) as i64,
        b: (channel_sum(s, 2) / s.len() as int) as i64,
    }
}

proof fn lemma_channel_sum_bound(s: Seq<Color>, k: int)
    requires
        forall|i: int| 0 <= i < s.len() ==> (#[trigger] s[i]).wf(),
    ensures
        0 <= channel_sum(s, k) <= s.len() * (COLOR_ONE as int),
    decreases s.len(),
{
    if s.len() > 0 {
        let t = s.drop_last();
        assert forall|i: int| 0 <= i < t.len() implies (#[trigger] t[i]).wf() by {
            assert(t[i] == s[i]);
        }
        lemma_channel_sum_bound(t, k);
        assert(s.last() == s[s.len() - 1]);
    }
}

/// The mean of the sample colours.
pub fn average(colors: &Vec<Color>) -> (c: Color)
    requires
        1 <= colors.len() <= MAX_SAMPLES,
        forall|i: int| 0 <= i < colors.len() ==> (#[trigger] colors[i]).wf(),
    ensures
        c == average_spec(colors@),
        c.wf(),
{
    let n = colors.len();
    let mut sr: i64 = 0;
    let mut sg: i64 = 0;
    let mut sb: i64 = 0;
    let mut i: usize = 0;
    while i < n
        invariant
            n == colors.len() <= MAX_SAMPLES,
            i <= n,
            forall|j: int| 0 <= j < colors.len() ==> (#[trigger] colors[j]).wf(),
            sr == channel_sum(colors@.take(i as int), 0),
            sg == channel_sum(colors@.take(i as int), 1),
            sb == channel_sum(colors@.take(i as int), 2),
            0 <= sr <= i * COLOR_ONE,
            0 <= sg <= i * COLOR_ONE,
            0 <= sb <= i * COLOR_ONE,
        decreases n - i,
    {
        let c = colors[i];
        proof {
            let t = colors@.take(i + 1);
            assert(t.drop_last() =~= colors@.take(i as int));
            assert(t.last() == c);
        }
        sr = sr + c.r;
        sg = sg + c.g;
        sb = sb + c.b;
        i = i + 1;
    }
    assert(colors@.take(n as int) =~= colors@);
    proof {
        lemma_channel_sum_bound(colors@, 0);
        lemma_channel_sum_bound(colors@, 1);
        lemma_channel_sum_bound(colors@, 2);
        lemma_mean_bound(sr as int, n as int);
        lemma_mean_bound(sg as int, n as int);
        lemma_mean_bound(sb as int, n as int);
    }
    Color { r: sr / n as i64, g: sg / n as i64, b: sb / n as i64 }
}

proof fn lemma_mean_bound(s: int, n: int)
    requires
        n >= 1,
        0 <= s <= n * (COLOR_ONE as int),
    ensures
        channel_ok(s / n),
{
    vstd::arithmetic::div_mod::lemma_div_is_ordered(0, s, n);
    vstd::arithmetic::div_mod::lemma_div_is_ordered(s, n * (COLOR_ONE as int), n);
    vstd::arithmetic::div_mod::lemma_fundamental_div_mod_converse(n * (COLOR_ONE as int), n, COLOR_ONE as int, 0);
}

/// The 8-bit value of a linear colour: gamma correction, then quantization.
pub open spec fn encode_spec(c: Color) -> Seq<u8> {
    seq![
        quantize_spec(gamma_spec(c.r as int)) as u8,
        quantize_spec(gamma_spec(c.g as int)) as u8,
        quantize_spec(gamma_spec(c.b as int)) as u8,
    ]
}

/// The pixel of a set of sample colours: their mean, gamma-corrected and
/// quantized to 8 bits.
pub fn pixel_from_samples(samples: &Vec<Color>) -> (p: [u8; 3])
    requires
        1 <= samples.len() <= MAX_SAMPLES,
        forall|i: int| 0 <= i < samples.len() ==> (#[trigger] samples[i]).wf(),
    ensures
        p@ == encode_spec(average_spec(samples@)),
{
    let avg = average(samples);
    avg.gamma_correction().to_rgb8()
}

/// The normalized image-plane coordinate of sample offset `d` in pixel `x`:
/// `(x + d) / (size - 1)`.
pub open spec fn sample_coord_spec(x: int, d: int, size: int) -> int {
    (x * ONE + d) / (size - 1)
}

pub fn sample_coord(x: u32, d: i64, size: u32) -> (u: i64)
    requires
        2 <= size <= MAX_DIM,
        x < size,
        0 <= d < ONE,
    ensures
        u == sample_coord_spec(x as int, d as int, size as int),
        0 <= u <= 2 * ONE,
{
    let num: i64 = x as i64 * ONE + d;
    proof {
        let w = size as int;
        assert(num < w * ONE) by (nonlinear_arith)
            requires
                num == x * ONE + d,
                x + 1 <= w,
                d < ONE,
        ;
        assert(w * ONE <= 2 * (w - 1) * ONE) by (nonlinear_arith)
            requires
                w >= 2,
        ;
        vstd::arithmetic::div_mod::lemma_div_is_ordered(0, num as int, w - 1);
        vstd::arithmetic::div_mod::lemma_div_is_ordered(num as int, 2 * (w - 1) * ONE, w - 1);
        vstd::arithmetic::div_mod::lemma_fundamental_div_mod_converse(2 * (w - 1) * ONE, w - 1, 2 * (ONE as int), 0);
    }
    num / (size as i64 - 1)
}

/// The pixel at index `i` of a row-major buffer `width` pixels wide:
/// column `i % width`, row `i / width`.
pub fn pixel_coords(i: usize, width: u32, height: u32) -> (xy: (u32, u32))
    requires
        width >= 1,
        i < width * height,
    ensures
        xy.0 == (i as int) % (width as int),
        xy.1 == (i as int) / (width as int),
        xy.0 < width,
        xy.1 < height,
{
    let w = width as usize;
    proof {
        vstd::arithmetic::div_mod::lemma_div_is_ordered(i as int, (width * height) as int, width as int);
        assert((width * height) as int == (height as int) * (width as int)) by (nonlinear_arith);
        vstd::arithmetic::div_mod::lemma_fundamental_div_mod_converse(
            (width * height) as int,
            width as int,
            height as int,
            0,
        );
        vstd::arithmetic::div_mod::lemma_fundamental_div_mod(i as int, width as int);
        if (i as int) / (width as int) == height as int {
            assert((width as int) * (height as int) <= i) by (nonlinear_arith)
                requires
                    (i as int) == (width as int) * ((i as int) / (width as int)) + (i as int) % (width as int),
                    (i as int) % (width as int) >= 0,
                    (i as int) / (width as int) == height as int,
            ;
        }
    }
    ((i % w) as u32, (i / w) as u32)
}

/// The camera ray of sample offset `d` in pixel `(x, y)` of a
/// `width` by `height` image.
pub open spec fn sample_ray(cam: Camera, x: int, y: int, width: int, height: int, d: (i64, i64)) -> Ray {
    Ray {
        orig: cam.origin,
        dir: ray_dir(cam, sample_coord_spec(x, d.0 as int, width), sample_coord_spec(y, d.1 as int, height)),
    }
}

/// The pixel at column `x`, row `y` (row 0 at the bottom): the mean over the
/// offsets of the colour seen through `(x + dx, y + dy)`, gamma-corrected and
/// quantized.
pub fn render_pixel<H: Hittable>(
    x: u32,
    y: u32,
    width: u32,
    height: u32,
    offsets: &Vec<(i64, i64)>,
    cam: &Camera,
    world: &H,
    max_depth: i32,
    rng: &mut ThreadRng,
) -> (p: [u8; 3])
    requires
        2 <= width <= MAX_DIM,
        2 <= height <= MAX_DIM,
        x < width,
        y < height,
        1 <= offsets.len() <= MAX_SAMPLES,
        forall|i: int|
            0 <= i < offsets.len() ==> 0 <= #[trigger] offsets[i].0 < ONE && 0 <= offsets[i].1
                < ONE,
        cam.wf(),
        world.valid(),
    ensures
        exists|samples: Seq<Color>|
            samples.len() == offsets.len() && (forall|i: int|
                0 <= i < samples.len() ==> radiance_ok(
                    *world,
                    #[trigger] sample_ray(*cam, x as int, y as int, width as int, height as int, offsets[i]),
                    max_depth as int,
                    samples[i],
                )) && p@ == encode_spec(average_spec(samples)),
{
    let mut samples: Vec<Color> = Vec::with_capacity(offsets.len());
    let mut i: usize = 0;
    while i < offsets.len()
        invariant
            i <= offsets.len(),
            samples.len() == i,
            forall|j: int| 0 <= j < samples.len() ==> (#[trigger] samples[j]).wf(),
            forall|j: int|
                0 <= j < samples.len() ==> radiance_ok(
                    *world,
                    #[trigger] sample_ray(*cam, x as int, y as int, width as int, height as int, offsets[j]),
                    max_depth as int,
                    samples[j],
                ),
            forall|j: int|
                0 <= j < offsets.len() ==> 0 <= #[trigger] offsets[j].0 < ONE && 0
                    <= offsets[j].1 < ONE,
            2 <= width <= MAX_DIM,
            2 <= height <= MAX_DIM,
            x < width,
            y < height,
            cam.wf(),
            world.valid(),
        decreases offsets.len() - i,
    {
        let (dx, dy) = offsets[i];
        let u = sample_coord(x, dx, width);
        let v = sample_coord(y, dy, height);
        let c = ray_color(&cam.get_ray(u, v), world, max_depth, rng);
        samples.push(c);
        proof {
            assert(samples@[i as int] == c);
        }
        i = i + 1;
    }
    let p = pixel_from_samples(&samples);
    assert(samples@.len() == offsets.len());
    p
}

} // verus!

verus! {

/// A ray that meets nothing gets the sky colour, which depends on the `y`
/// component of its unit direction alone: two such directions with the same
/// unit `y` give the same colour.
pub proof fn lemma_sky_depends_on_unit_y(d1: Vec3, d2: Vec3)
    requires
        normalize_spec(d1).y == normalize_spec(d2).y,
    ensures
        sky_spec(d1) == sky_spec(d2),
        sky_spec(d1) == sky_at(normalize_spec(d1).y as int),
{
}

proof fn lemma_channel_sum_identical(s: Seq<Color>, c: Color, k: int)
    requires
        forall|i: int| 0 <= i < s.len() ==> s[i] == c,
    ensures
        channel_sum(s, k) == s.len() * channel(c, k),
    decreases s.len(),
{
    if s.len() > 0 {
        let t = s.drop_last();
        assert forall|i: int| 0 <= i < t.len() implies t[i] == c by {
            assert(t[i] == s[i]);
        }
        lemma_channel_sum_identical(t, c, k);
        assert(s.last() == s[s.len() - 1]);
        assert(channel_sum(s, k) == t.len() * channel(c, k) + channel(c, k));
        assert(t.len() * channel(c, k) + channel(c, k) == s.len() * channel(c, k)) by (nonlinear_arith)
            requires
                t.len() + 1 == s.len(),
        ;
    }
}

/// Averaging identical samples gives that sample back exactly, and so the
/// same pixel as the sample alone.
pub proof fn lemma_average_of_identical(s: Seq<Color>, c: Color)
    requires
        s.len() >= 1,
        forall|i: int| 0 <= i < s.len() ==> s[i] == c,
    ensures
        average_spec(s) == c,
        encode_spec(average_spec(s)) == encode_spec(average_spec(seq![c])),
{
    let n = s.len() as int;
    lemma_channel_sum_identical(s, c, 0);
    lemma_channel_sum_identical(s, c, 1);
    lemma_channel_sum_identical(s, c, 2);
    assert(n * c.r == c.r * n && n * c.g == c.g * n && n * c.b == c.b * n) by (nonlinear_arith);
    vstd::arithmetic::div_mod::lemma_fundamental_div_mod_converse(n * c.r, n, c.r as int, 0);
    vstd::arithmetic::div_mod::lemma_fundamental_div_mod_converse(n * c.g, n, c.g as int, 0);
    vstd::arithmetic::div_mod::lemma_fundamental_div_mod_converse(n * c.b, n, c.b as int, 0);
    let one = seq![c];
    assert(one.len() == 1);
    assert(one.drop_last().len() == 0);
    assert(one.last() == c);
    assert(channel_sum(one.drop_last(), 0) == 0);
    assert(channel_sum(one.drop_last(), 1) == 0);
    assert(channel_sum(one.drop_last(), 2) == 0);
    vstd::arithmetic::div_mod::lemma_fundamental_div_mod_converse(c.r as int, 1, c.r as int, 0);
    vstd::arithmetic::div_mod::lemma_fundamental_div_mod_converse(c.g as int, 1, c.g as int, 0);
    vstd::arithmetic::div_mod::lemma_fundamental_div_mod_converse(c.b as int, 1, c.b as int, 0);
    assert(one.len() == 1);
    assert(channel_sum(one, 0) == c.r as int);
    assert(channel_sum(one, 1) == c.g as int);
    assert(channel_sum(one, 2) == c.b as int);
    assert(average_spec(one).r == c.r);
    assert(average_spec(one).g == c.g);
    assert(average_spec(one).b == c.b);
    assert(average_spec(one) == c);
}

} // verus!
