//! Colors: red, green, blue channels in the unit interval.

use vstd::prelude::*;

verus! {

use crate::fixed::{SCALE, abs_int, fmul, fsqrt, is_isqrt, lemma_isqrt_below, lemma_mul_fx_bound, mul_fx, sqrt_fx};
use crate::vec3::Vec3;

/// A color; each channel is a fixed-point scalar in `[0, 1]`, that is in
/// `[0, SCALE]`.  Out-of-range channels are a contract violation, so every
/// constructor requires the range and every accessor returns it.
#[derive(Clone, Copy, Debug, PartialEq, Eq, Structural)]
pub struct Color {
    pub r: i64,
    pub g: i64,
    pub b: i64,
}

/// Whether all three channels lie in the unit interval.
pub open spec fn color_valid(c: Color) -> bool {
    0 <= c.r <= SCALE && 0 <= c.g <= SCALE && 0 <= c.b <= SCALE
}

/// The byte a unit-interval channel maps to: `round(channel * 255)`, written
/// over the fixed-point representation.
pub open spec fn channel_byte(c: int) -> int {
    (c * 255 + 32768) / 65536
}

/// The component-wise product of two colors, the per-bounce attenuation.
pub open spec fn attenuate3(a: Color, b: Color) -> Color {
    Color {
        r: mul_fx(a.r as int, b.r as int) as i64,
        g: mul_fx(a.g as int, b.g as int) as i64,
        b: mul_fx(a.b as int, b.b as int) as i64,
    }
}

/// Attenuating black yields black: every channel product collapses to zero.
pub proof fn lemma_attenuate_black(a: Color)
    ensures
        attenuate3(a, (Color { r: 0, g: 0, b: 0 })) == (Color { r: 0, g: 0, b: 0 }),
{
    crate::fixed::lemma_div_trunc_mag((a.r as int) * 0, 65536);
    crate::fixed::lemma_div_trunc_mag((a.g as int) * 0, 65536);
    crate::fixed::lemma_div_trunc_mag((a.b as int) * 0, 65536);
}

/// A product of unit-interval channels stays in the unit interval.
pub proof fn lemma_channel_mul_valid(a: int, b: int)
    requires
        0 <= a <= 65536,
        0 <= b <= 65536,
    ensures
        0 <= mul_fx(a, b) <= 65536,
{
    lemma_mul_fx_bound(a, b, 65536, 65536);
    crate::fixed::lemma_div_trunc_mag(a * b, 65536);
    assert(a * b >= 0) by (nonlinear_arith)
        requires
            a >= 0,
            b >= 0,
    ;
}

impl Color {
    /// Builds the color; the channels must lie in the unit interval.
    pub fn new(red: i64, green: i64, blue: i64) -> (c: Color)
        requires
            0 <= red <= SCALE,
            0 <= green <= SCALE,
            0 <= blue <= SCALE,
        ensures
            c.r == red,
            c.g == green,
            c.b == blue,
            color_valid(c),
    {
        Color { r: red, g: green, b: blue }
    }

    /// The red channel.
    pub fn red(&self) -> (r: i64)
        requires
            color_valid(*self),
        ensures
            r == self.r,
    {
        self.r
    }

    /// The green channel.
    pub fn green(&self) -> (r: i64)
        requires
            color_valid(*self),
        ensures
            r == self.g,
    {
        self.g
    }

    /// The blue channel.
    pub fn blue(&self) -> (r: i64)
        requires
            color_valid(*self),
        ensures
            r == self.b,
    {
        self.b
    }

    /// Whether all channels lie in the unit interval.
    pub fn valid(&self) -> (r: bool)
        ensures
            r == color_valid(*self),
    {
        0 <= self.r && self.r <= SCALE && 0 <= self.g && self.g <= SCALE && 0 <= self.b && self.b
            <= SCALE
    }

    /// The three output bytes of the pixel: each channel scaled by 255 and
    /// rounded to the nearest integer.
    pub fn write_color(&self) -> (out: (u8, u8, u8))
        requires
            color_valid(*self),
        ensures
            out.0 == channel_byte(self.r as int),
            out.1 == channel_byte(self.g as int),
            out.2 == channel_byte(self.b as int),
            0 <= channel_byte(self.r as int) <= 255,
            0 <= channel_byte(self.g as int) <= 255,
            0 <= channel_byte(self.b as int) <= 255,
    {
        let rb: i64 = (self.r * 255 + 32768) / 65536;
        let gb: i64 = (self.g * 255 + 32768) / 65536;
        let bb: i64 = (self.b * 255 + 32768) / 65536;
        (rb as u8, gb as u8, bb as u8)
    }

    /// The gamma-corrected color for gamma 2: each channel's square root.
    pub fn gamma2(&self) -> (c: Color)
        requires
            color_valid(*self),
        ensures
            c.r == sqrt_fx(self.r as int),
            c.g == sqrt_fx(self.g as int),
            c.b == sqrt_fx(self.b as int),
            color_valid(c),
    {
        let r = fsqrt(self.r);
        let g = fsqrt(self.g);
        let b = fsqrt(self.b);
        proof {
            lemma_isqrt_below(r as int, self.r as int * 65536, 65537);
            lemma_isqrt_below(g as int, self.g as int * 65536, 65537);
            lemma_isqrt_below(b as int, self.b as int * 65536, 65537);
            assert(65536 * 65536 < 65537int * 65537int);
        }
        Color { r, g, b }
    }

    /// Channel-wise sum; the result must stay in the unit interval.
    pub fn add(&self, o: &Color) -> (c: Color)
        requires
            color_valid(*self),
            color_valid(*o),
            self.r + o.r <= SCALE,
            self.g + o.g <= SCALE,
            self.b + o.b <= SCALE,
        ensures
            c.r == self.r + o.r,
            c.g == self.g + o.g,
            c.b == self.b + o.b,
            color_valid(c),
    {
        Color { r: self.r + o.r, g: self.g + o.g, b: self.b + o.b }
    }

    /// Channel-wise product, the per-bounce attenuation step.  Products of
    /// unit-interval channels need no clamping.
    pub fn mul(&self, o: &Color) -> (c: Color)
        requires
            color_valid(*self),
            color_valid(*o),
        ensures
            c.r == mul_fx(self.r as int, o.r as int),
            c.g == mul_fx(self.g as int, o.g as int),
            c.b == mul_fx(self.b as int, o.b as int),
            c == attenuate3(*self, *o),
            color_valid(c),
    {
        proof {
            lemma_channel_mul_valid(self.r as int, o.r as int);
            lemma_channel_mul_valid(self.g as int, o.g as int);
            lemma_channel_mul_valid(self.b as int, o.b as int);
        }
        Color { r: fmul(self.r, o.r), g: fmul(self.g, o.g), b: fmul(self.b, o.b) }
    }

    /// The color scaled by a unit-interval factor.
    pub fn mul_scalar(&self, s: i64) -> (c: Color)
        requires
            color_valid(*self),
            0 <= s <= SCALE,
        ensures
            c.r == mul_fx(self.r as int, s as int),
            c.g == mul_fx(self.g as int, s as int),
            c.b == mul_fx(self.b as int, s as int),
            color_valid(c),
    {
        proof {
            lemma_channel_mul_valid(self.r as int, s as int);
            lemma_channel_mul_valid(self.g as int, s as int);
            lemma_channel_mul_valid(self.b as int, s as int);
        }
        Color { r: fmul(self.r, s), g: fmul(self.g, s), b: fmul(self.b, s) }
    }

    /// Reads a color out of an accumulation vector; refused unless every
    /// component lies in the unit interval.
    pub fn from_vec(v: &Vec3) -> (c: Option<Color>)
        ensures
            c is Some <==> (0 <= v.x <= SCALE && 0 <= v.y <= SCALE && 0 <= v.z <= SCALE),
            c is Some ==> {
                &&& c->Some_0.r == v.x
                &&& c->Some_0.g == v.y
                &&& c->Some_0.b == v.z
                &&& color_valid(c->Some_0)
            },
    {
        if 0 <= v.x && v.x <= SCALE && 0 <= v.y && v.y <= SCALE && 0 <= v.z && v.z <= SCALE {
            Some(Color { r: v.x, g: v.y, b: v.z })
        } else {
            None
        }
    }
}

} // verus!
