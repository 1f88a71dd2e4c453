//! Mapping from an escape-time iteration count to an RGBA pixel.

use vstd::arithmetic::div_mod::lemma_div_is_ordered;
use vstd::arithmetic::mul::lemma_mul_inequality;
use vstd::prelude::*;

verus! {

/// Per-channel coefficients that scale an iteration count into intensities.
#[derive(Clone, Copy, Debug, PartialEq, Eq, Structural)]
pub struct Color {
    pub r: u32,
    pub g: u32,
    pub b: u32,
}

/// One raster cell: red, green, blue and alpha, eight bits each.
#[derive(Clone, Copy, Debug, PartialEq, Eq, Structural)]
pub struct Rgba8 {
    pub r: u8,
    pub g: u8,
    pub b: u8,
    pub a: u8,
}

/// The factor that scales `k * coefficient / max_iter` into a channel,
/// which is also the alpha of every computed (outside) color.
#[derive(Clone, Copy, Debug, PartialEq, Eq, Structural)]
pub enum ColorScale {
    /// Factor and alpha 250.
    Soft,
    /// Factor and alpha 255.
    Full,
}

/// The color of points presumed inside the filled Julia set: opaque black.
pub open spec fn inside_color() -> Rgba8 {
    Rgba8 { r: 0, g: 0, b: 0, a: 255 }
}

pub open spec fn scale_factor(s: ColorScale) -> nat {
    match s {
        ColorScale::Soft => 250,
        ColorScale::Full => 255,
    }
}

/// `k * coeff * scale / max_iter`, saturated at 255.
pub open spec fn channel_value(k: nat, coeff: nat, max_iter: nat, scale: nat) -> nat {
    let v = (k * coeff * scale) / max_iter;
    if v > 255 {
        255
    } else {
        v
    }
}

/// The color that iteration count `k` receives.
pub open spec fn color_of(k: nat, palette: Color, max_iter: nat, scale: ColorScale) -> Rgba8 {
    if k == max_iter {
        inside_color()
    } else {
        let s = scale_factor(scale);
        Rgba8 {
            r: channel_value(k, palette.r as nat, max_iter, s) as u8,
            g: channel_value(k, palette.g as nat, max_iter, s) as u8,
            b: channel_value(k, palette.b as nat, max_iter, s) as u8,
            a: s as u8,
        }
    }
}

impl ColorScale {
    /// The factor as an integer.
    pub fn factor(self) -> (r: u32)
        ensures
            r == scale_factor(self),
    {
        match self {
            ColorScale::Soft => 250,
            ColorScale::Full => 255,
        }
    }
}

/// One channel: `k * coeff * scale / max_iter` in wide arithmetic, saturated
/// at 255.
fn channel(k: u32, coeff: u32, max_iter: u32, scale: u32) -> (r: u8)
    requires
        max_iter > 0,
        scale <= 255,
    ensures
        r as nat == channel_value(k as nat, coeff as nat, max_iter as nat, scale as nat),
{
    assert((k as nat) * (coeff as nat) <= 0xffff_ffff_ffff_ffffu128) by (nonlinear_arith)
        requires
            k <= 0xffff_ffffu32,
            coeff <= 0xffff_ffffu32,
    ;
    let kc: u128 = (k as u128) * (coeff as u128);
    assert(kc * (scale as u128) <= 0xffff_ffff_ffff_ffff_ffffu128) by (nonlinear_arith)
        requires
            kc == (k as nat) * (coeff as nat),
            k <= 0xffff_ffffu32,
            coeff <= 0xffff_ffffu32,
            scale <= 255,
    ;
    let prod: u128 = kc * (scale as u128);
    let v: u128 = prod / (max_iter as u128);
    if v > 255 {
        255
    } else {
        v as u8
    }
}

/// Maps iteration count `k` to a pixel. A count equal to `max_iter` is the
/// inside sentinel, opaque black; any other count gives each channel
/// `min(255, k * coefficient * factor / max_iter)` and alpha `factor`.
pub fn map_color(k: u32, palette: &Color, max_iter: u32, scale: ColorScale) -> (p: Rgba8)
    requires
        max_iter > 0,
    ensures
        p == color_of(k as nat, *palette, max_iter as nat, scale),
{
    if k == max_iter {
        Rgba8 { r: 0, g: 0, b: 0, a: 255 }
    } else {
        let s = scale.factor();
        Rgba8 {
            r: channel(k, palette.r, max_iter, s),
            g: channel(k, palette.g, max_iter, s),
            b: channel(k, palette.b, max_iter, s),
            a: s as u8,
        }
    }
}

proof fn lemma_channel_monotone(k1: nat, k2: nat, coeff: nat, max_iter: nat, scale: nat)
    requires
        k1 <= k2,
        max_iter > 0,
    ensures
        channel_value(k1, coeff, max_iter, scale) <= channel_value(k2, coeff, max_iter, scale),
{
    lemma_mul_inequality(k1 as int, k2 as int, coeff as int);
    lemma_mul_inequality((k1 * coeff) as int, (k2 * coeff) as int, scale as int);
    lemma_div_is_ordered((k1 * coeff * scale) as int, (k2 * coeff * scale) as int, max_iter as int);
}

/// The color mapper never darkens as the iteration count grows below
/// `max_iter`: every channel is non-decreasing in `k`, and the alpha is the
/// same. A count of `max_iter` always maps to the inside sentinel.
pub proof fn lemma_color_monotone(k1: nat, k2: nat, palette: Color, max_iter: nat, scale: ColorScale)
    requires
        k1 <= k2 < max_iter,
    ensures
        color_of(k1, palette, max_iter, scale).r <= color_of(k2, palette, max_iter, scale).r,
        color_of(k1, palette, max_iter, scale).g <= color_of(k2, palette, max_iter, scale).g,
        color_of(k1, palette, max_iter, scale).b <= color_of(k2, palette, max_iter, scale).b,
        color_of(k1, palette, max_iter, scale).a == color_of(k2, palette, max_iter, scale).a,
        color_of(max_iter, palette, max_iter, scale) == inside_color(),
{
    let s = scale_factor(scale);
    lemma_channel_monotone(k1, k2, palette.r as nat, max_iter, s);
    lemma_channel_monotone(k1, k2, palette.g as nat, max_iter, s);
    lemma_channel_monotone(k1, k2, palette.b as nat, max_iter, s);
}

} // verus!
