//! Linear RGB colours, gamma correction and 8-bit quantization.
use vstd::prelude::*;
use crate::fixed::lemma_mul_abs;

verus! {

/// The raw value of a full channel (1.0).
pub const COLOR_ONE: i64 = 1024;

/// A channel value in `[0, 1]`.
pub open spec fn channel_ok(c: int) -> bool {
    0 <= c <= COLOR_ONE
}

/// A linear RGB triple, each channel a fixed-point value with `COLOR_ONE` as 1.0.
#[derive(Debug, Copy, Clone, PartialEq, Eq, Structural)]
pub struct Color {
    pub r: i64,
    pub g: i64,
    pub b: i64,
}

/// `x^11`, the numerator of the exponent 2.2 = 11/5.
pub open spec fn pow11(x: int) -> int {
    let x2 = x * x;
    let x4 = x2 * x2;
    let x8 = x4 * x4;
    x8 * x2 * x
}

/// `x^5`.
pub open spec fn pow5(x: int) -> int {
    let x2 = x * x;
    x2 * x2 * x
}

/// `g` is the gamma-corrected value of channel `c`: the largest channel value
/// `g` with `(g / 1)^2.2 <= c / 1`, that is `g^11 <= c^5 * COLOR_ONE^6`.
pub open spec fn gamma_bound(c: int, g: int) -> bool {
    pow11(g) <= pow5(c) * pow5(COLOR_ONE as int) * (COLOR_ONE as int)
}

pub open spec fn is_gamma_of(c: int, g: int) -> bool {
    &&& channel_ok(g)
    &&& gamma_bound(c, g)
    &&& (g == COLOR_ONE || !gamma_bound(c, g + 1))
}

/// The gamma-corrected channel (power 1/2.2), rounded down.
pub open spec fn gamma_spec(c: int) -> int {
    choose|g: int| is_gamma_of(c, g)
}

/// The 8-bit quantization of a channel: `floor(c * 255.999)`.
pub open spec fn quantize_spec(c: int) -> int {
    (c * 255999) / (1000 * COLOR_ONE)
}

proof fn lemma_pow11_mono(a: int, b: int)
    requires
        0 <= a <= b,
    ensures
        0 <= pow11(a) <= pow11(b),
{
    lemma_mul_abs(a, a, b, b);
    lemma_mul_abs(a * a, a * a, b * b, b * b);
    lemma_mul_abs(a * a * (a * a), a * a * (a * a), b * b * (b * b), b * b * (b * b));
    let a8 = a * a * (a * a) * (a * a * (a * a));
    let b8 = b * b * (b * b) * (b * b * (b * b));
    lemma_mul_abs(a8, a * a, b8, b * b);
    lemma_mul_abs(a8 * (a * a), a, b8 * (b * b), b);
}

proof fn lemma_pow5_mono(a: int, b: int)
    requires
        0 <= a <= b,
    ensures
        0 <= pow5(a) <= pow5(b),
{
    lemma_mul_abs(a, a, b, b);
    lemma_mul_abs(a * a, a * a, b * b, b * b);
    lemma_mul_abs(a * a * (a * a), a, b * b * (b * b), b);
}

/// The gamma-corrected value is unique.
proof fn lemma_gamma_unique(c: int, g: int)
    requires
        is_gamma_of(c, g),
    ensures
        gamma_spec(c) == g,
{
    let h = gamma_spec(c);
    assert(is_gamma_of(c, h));
    if h < g {
        lemma_pow11_mono(h + 1, g);
    } else if g < h {
        lemma_pow11_mono(g + 1, h);
    }
}

/// `x^11` for a channel value.
fn pow11_exec(x: u128) -> (r: u128)
    requires
        x <= 1024,
    ensures
        r == pow11(x as int),
{
    proof {
        lemma_mul_abs(x as int, x as int, 1024, 1024);
        lemma_mul_abs(x * x, x * x, 1048576int, 1048576int);
        let x4 = x * x * (x * x);
        lemma_mul_abs(x4, x4, 0x100_0000_0000, 0x100_0000_0000);
        lemma_mul_abs(x4 * x4, x * x, 0x1_0000_0000_0000_0000_0000, 1048576int);
        lemma_mul_abs(x4 * x4 * (x * x), x as int, 0x10_0000_0000_0000_0000_0000_0000, 1024);
    }
    let x2 = x * x;
    let x4 = x2 * x2;
    let x8 = x4 * x4;
    x8 * x2 * x
}

/// `c^5 * COLOR_ONE^6`, the bound of `gamma_bound`.
fn gamma_limit(c: u128) -> (r: u128)
    requires
        c <= 1024,
    ensures
        r == pow5(c as int) * pow5(COLOR_ONE as int) * (COLOR_ONE as int),
{
    proof {
        lemma_mul_abs(c as int, c as int, 1024, 1024);
        lemma_mul_abs(c * c, c * c, 1048576int, 1048576int);
        lemma_mul_abs(c * c * (c * c), c as int, 0x100_0000_0000, 1024);
        assert(pow5(COLOR_ONE as int) == 0x4_0000_0000_0000);
    }
    let c2 = c * c;
    let c5 = c2 * c2 * c;
    c5 * 0x4_0000_0000_0000 * 1024
}

/// Gamma correction of one channel (power 1/2.2), by bisection.
pub fn gamma_channel(c: i64) -> (g: i64)
    requires
        channel_ok(c as int),
    ensures
        is_gamma_of(c as int, g as int),
        g == gamma_spec(c as int),
{
    let k = gamma_limit(c as u128);
    proof {
        assert(pow11(0) == 0);
        lemma_pow5_mono(0, c as int);
    }
    let mut lo: i64 = 0;
    let mut hi: i64 = COLOR_ONE + 1;
    while hi - lo > 1
        invariant
            0 <= lo < hi <= COLOR_ONE + 1,
            gamma_bound(c as int, lo as int),
            hi == COLOR_ONE + 1 || !gamma_bound(c as int, hi as int),
            k == pow5(c as int) * pow5(COLOR_ONE as int) * (COLOR_ONE as int),
        decreases hi - lo,
    {
        let mid = lo + (hi - lo) / 2;
        if pow11_exec(mid as u128) <= k {
            lo = mid;
        } else {
            hi = mid;
        }
    }
    proof {
        lemma_gamma_unique(c as int, lo as int);
    }
    lo
}

/// The 8-bit value of a channel: `floor(c * 255.999)`.
pub fn quantize(c: i64) -> (q: u8)
    requires
        channel_ok(c as int),
    ensures
        q == quantize_spec(c as int),
{
    proof {
        vstd::arithmetic::div_mod::lemma_div_is_ordered(
            c * 255999,
            1024int * 255999,
            1000 * COLOR_ONE as int,
        );
        vstd::arithmetic::div_mod::lemma_div_is_ordered(0, c * 255999, 1000 * COLOR_ONE as int);
        assert((1024int * 255999) / (1000 * 1024int) == 255);
    }
    ((c * 255999) / (1000 * COLOR_ONE)) as u8
}

/// The component-wise product of two colours, rounded down.
pub open spec fn color_mul(a: Color, b: Color) -> Color {
    Color {
        r: ((a.r * b.r) / (COLOR_ONE as int)) as i64,
        g: ((a.g * b.g) / (COLOR_ONE as int)) as i64,
        b: ((a.b * b.b) / (COLOR_ONE as int)) as i64,
    }
}

/// The black colour.
pub open spec fn black() -> Color {
    Color { r: 0, g: 0, b: 0 }
}

impl Color {
    /// Every channel lies in `[0, 1]`.
    pub open spec fn wf(&self) -> bool {
        channel_ok(self.r as int) && channel_ok(self.g as int) && channel_ok(self.b as int)
    }

    pub fn new(r: i64, g: i64, b: i64) -> (c: Color)
        requires
            channel_ok(r as int),
            channel_ok(g as int),
            channel_ok(b as int),
        ensures
            c == (Color { r, g, b }),
            c.wf(),
    {
        Color { r, g, b }
    }

    pub fn black() -> (c: Color)
        ensures
            c == black(),
            c.wf(),
    {
        Color { r: 0, g: 0, b: 0 }
    }

    /// Component-wise product (attenuation), rounded down.
    pub fn mul(self, o: Color) -> (c: Color)
        requires
            self.wf(),
            o.wf(),
        ensures
            c == color_mul(self, o),
            c.wf(),
    {
        Color {
            r: mul_channel(self.r, o.r),
            g: mul_channel(self.g, o.g),
            b: mul_channel(self.b, o.b),
        }
    }

    /// Channel-wise sum, where every sum stays within `[0, 1]`.
    pub fn add(self, o: Color) -> (c: Color)
        requires
            self.wf(),
            o.wf(),
            channel_ok(self.r + o.r),
            channel_ok(self.g + o.g),
            channel_ok(self.b + o.b),
        ensures
            c == (Color {
                r: (self.r + o.r) as i64,
                g: (self.g + o.g) as i64,
                b: (self.b + o.b) as i64,
            }),
            c.wf(),
    {
        Color { r: self.r + o.r, g: self.g + o.g, b: self.b + o.b }
    }

    /// The colour scaled by `t` in `[0, 1]` (a channel value), rounded down.
    pub fn scale(self, t: i64) -> (c: Color)
        requires
            self.wf(),
            channel_ok(t as int),
        ensures
            c == color_mul(Color { r: t, g: t, b: t }, self),
            c.wf(),
    {
        Color { r: t, g: t, b: t }.mul(self)
    }

    /// Gamma correction of every channel (power 1/2.2).
    pub fn gamma_correction(self) -> (c: Color)
        requires
            self.wf(),
        ensures
            c == (Color {
                r: gamma_spec(self.r as int) as i64,
                g: gamma_spec(self.g as int) as i64,
                b: gamma_spec(self.b as int) as i64,
            }),
            c.wf(),
            channel_ok(gamma_spec(self.r as int)),
            channel_ok(gamma_spec(self.g as int)),
            channel_ok(gamma_spec(self.b as int)),
    {
        Color {
            r: gamma_channel(self.r),
            g: gamma_channel(self.g),
            b: gamma_channel(self.b),
        }
    }

    /// The 8-bit triple of the colour, each channel `floor(c * 255.999)`.
    pub fn to_rgb8(self) -> (p: [u8; 3])
        requires
            self.wf(),
        ensures
            p@ == seq![
                quantize_spec(self.r as int) as u8,
                quantize_spec(self.g as int) as u8,
                quantize_spec(self.b as int) as u8,
            ],
    {
        let p = [quantize(self.r), quantize(self.g), quantize(self.b)];
        assert(p@ =~= seq![
                quantize_spec(self.r as int) as u8,
                quantize_spec(self.g as int) as u8,
                quantize_spec(self.b as int) as u8,
            ]);
        p
    }
}

fn mul_channel(a: i64, b: i64) -> (c: i64)
    requires
        channel_ok(a as int),
        channel_ok(b as int),
    ensures
        c == (a * b) / (COLOR_ONE as int),
        channel_ok(c as int),
{
    proof {
        lemma_mul_abs(a as int, b as int, 1024, 1024);
        vstd::arithmetic::div_mod::lemma_div_is_ordered(a * b, 1048576int, 1024);
        vstd::arithmetic::div_mod::lemma_div_is_ordered(0, a * b, 1024);
    }
    (a * b) / COLOR_ONE
}

} // verus!
