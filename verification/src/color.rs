//! RGB pixel values: byte channels produced from fixed-point components
//! by clamped quantization, with blending operators and 24-bit packing.

use vstd::prelude::*;
use vstd::arithmetic::div_mod::{
    lemma_basic_div, lemma_div_is_ordered, lemma_div_multiples_vanish, lemma_div_pos_is_pos,
};
use crate::fx::{Fx, SCALE, tdiv, tdiv_i128, lemma_tdiv_mono};

verus! {

/// Quantization of a fixed-point channel to a byte:
/// floor(255.999 * c), clamped into 0..=255.
pub open spec fn quant(c: int) -> int {
    let q: int = tdiv(c * 255999, 65536000);
    if q < 0 {
        0
    } else if q > 255 {
        255
    } else {
        q
    }
}

/// A channel scaled by a fixed-point factor, clamped into 0..=255.
pub open spec fn cscale(ch: int, s: int) -> int {
    let q: int = tdiv(ch * s, SCALE as int);
    if q < 0 {
        0
    } else if q > 255 {
        255
    } else {
        q
    }
}

/// Two channels added with saturation at 255.
pub open spec fn csat_add(a: int, b: int) -> int {
    if a + b > 255 {
        255
    } else {
        a + b
    }
}

/// An RGB color with one byte per channel.
#[derive(Clone, Copy, Debug, PartialEq, Eq, Structural)]
pub struct Color {
    pub r: u8,
    pub g: u8,
    pub b: u8,
}

impl Color {
    /// Builds a color from fixed-point components, quantizing each
    /// channel as `quant` describes. Components outside [0, 1] clamp.
    pub fn new(r: Fx, g: Fx, b: Fx) -> (c: Color)
        ensures
            c.r as int == quant(r@),
            c.g as int == quant(g@),
            c.b as int == quant(b@),
    {
        Color { r: quant_channel(r), g: quant_channel(g), b: quant_channel(b) }
    }

    /// This color scaled by `s`, channel by channel, with clamping.
    pub fn scale(self, s: Fx) -> (c: Color)
        ensures
            c.r as int == cscale(self.r as int, s@),
            c.g as int == cscale(self.g as int, s@),
            c.b as int == cscale(self.b as int, s@),
    {
        Color {
            r: scale_channel(self.r, s),
            g: scale_channel(self.g, s),
            b: scale_channel(self.b, s),
        }
    }

    /// Channel-wise addition, saturating at 255.
    pub fn add(self, other: Color) -> (c: Color)
        ensures
            c.r as int == csat_add(self.r as int, other.r as int),
            c.g as int == csat_add(self.g as int, other.g as int),
            c.b as int == csat_add(self.b as int, other.b as int),
    {
        Color {
            r: sat_add_channel(self.r, other.r),
            g: sat_add_channel(self.g, other.g),
            b: sat_add_channel(self.b, other.b),
        }
    }

    /// The 24-bit packed pixel: red in bits 16..=23, green in 8..=15,
    /// blue in 0..=7.
    pub fn pack(self) -> (p: u32)
        ensures
            p as int == (self.r as int) * 65536 + (self.g as int) * 256 + (self.b as int),
    {
        (self.r as u32) * 65536 + (self.g as u32) * 256 + (self.b as u32)
    }
}

impl Fx {
    /// This scalar times a color (scalar on the left); channel by
    /// channel the result equals scaling the color by the scalar.
    pub fn scale_color(self, c: Color) -> (r: Color)
        ensures
            r.r as int == cscale(c.r as int, self@),
            r.g as int == cscale(c.g as int, self@),
            r.b as int == cscale(c.b as int, self@),
    {
        c.scale(self)
    }
}

fn quant_channel(c: Fx) -> (q: u8)
    ensures
        q as int == quant(c@),
{
    if c.raw <= 0 {
        proof {
            if c@ * 255999 < 0 {
                lemma_div_pos_is_pos(-(c@ * 255999), 65536000);
            } else {
                lemma_basic_div(0, 65536000);
            }
        }
        0
    } else if c.raw >= 65536 {
        proof {
            lemma_tdiv_mono(16777150464, c@ * 255999, 65536000);
            lemma_div_is_ordered(65536000int * 255, 16777150464, 65536000);
            lemma_div_multiples_vanish(255, 65536000);
        }
        255
    } else {
        let p: u64 = (c.raw as u64) * 255999;
        let q: u64 = p / 65536000;
        proof {
            lemma_div_is_ordered(p as int, 16777215999int, 65536000);
            assert(16777215999int / 65536000 == 255);
        }
        q as u8
    }
}

fn scale_channel(ch: u8, s: Fx) -> (q: u8)
    ensures
        q as int == cscale(ch as int, s@),
{
    proof {
        assert(-0x7fff_ffff_ffff_ffff * 256 <= (ch as int) * (s.raw as int)
            <= 0x7fff_ffff_ffff_ffff * 256) by (nonlinear_arith)
            requires
                0 <= ch as int <= 255,
                -0x8000_0000_0000_0000 <= s.raw as int <= 0x7fff_ffff_ffff_ffff,
        ;
    }
    let p: i128 = (ch as i128) * (s.raw as i128);
    let q: i128 = tdiv_i128(p, SCALE as i128);
    if q < 0 {
        0
    } else if q > 255 {
        255
    } else {
        q as u8
    }
}

fn sat_add_channel(a: u8, b: u8) -> (q: u8)
    ensures
        q as int == csat_add(a as int, b as int),
{
    let s: u16 = (a as u16) + (b as u16);
    if s > 255 {
        255
    } else {
        s as u8
    }
}

} // verus!
