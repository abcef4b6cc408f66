//! Colors with 8-bit channels and the integer alpha-blending arithmetic used
//! by the pixel compositor.

use vstd::prelude::*;

verus! {

use vstd::arithmetic::div_mod::{
    lemma_div_is_ordered,
    lemma_div_multiples_vanish,
    lemma_fundamental_div_mod,
    lemma_mod_bound,
};
use vstd::arithmetic::mul::{lemma_mul_inequality, lemma_mul_nonnegative, lemma_mul_upper_bound};

/// A color with 8-bit blue, green, red and alpha channels, in the byte order
/// of the target surface's pixel format. Alpha 0 is fully transparent, 255
/// fully opaque.
#[derive(Clone, Copy, Debug, PartialEq, Eq, Structural)]
pub struct Color {
    pub b: u8,
    pub g: u8,
    pub r: u8,
    pub a: u8,
}

/// One channel of a source-over blend: `(src * a + dst * (255 - a)) / 256`.
pub open spec fn blend_channel(dst: int, src: int, a: int) -> int {
    (src * a + dst * (255 - a)) / 256
}

/// The effective alpha of a tinted glyph pixel: the glyph coverage scaled by
/// the draw color's alpha.
pub open spec fn tint_alpha(src_a: int, color_a: int) -> int {
    src_a * color_a / 256
}

/// One channel of a tinted blend: the source channel is first scaled by the
/// tint channel and the effective alpha, then blended onto the destination.
pub open spec fn tint_channel(dst: int, src: int, color: int, sa: int) -> int {
    src * color * sa / 65536 + dst * (255 - sa) / 256
}

/// The color written by a source-over blend of `src` onto `dst`: each color
/// channel follows `blend_channel` with `src`'s alpha; the destination alpha
/// is kept.
pub open spec fn blend_pixel_spec(dst: Color, src: Color) -> Color {
    Color {
        b: blend_channel(dst.b as int, src.b as int, src.a as int) as u8,
        g: blend_channel(dst.g as int, src.g as int, src.a as int) as u8,
        r: blend_channel(dst.r as int, src.r as int, src.a as int) as u8,
        a: dst.a,
    }
}

/// The color written by blending the glyph-atlas pixel `src`, tinted by the
/// draw color `color`, onto `dst`.
pub open spec fn blend_pixel2_spec(dst: Color, src: Color, color: Color) -> Color {
    let sa = tint_alpha(src.a as int, color.a as int);
    Color {
        b: tint_channel(dst.b as int, src.b as int, color.b as int, sa) as u8,
        g: tint_channel(dst.g as int, src.g as int, color.g as int, sa) as u8,
        r: tint_channel(dst.r as int, src.r as int, color.r as int, sa) as u8,
        a: dst.a,
    }
}

/// `blend_channel` stays within a byte whenever its inputs are channel values.
pub proof fn lemma_blend_channel_bound(dst: int, src: int, a: int)
    requires
        0 <= dst <= 255,
        0 <= src <= 255,
        0 <= a <= 255,
    ensures
        0 <= blend_channel(dst, src, a) <= 254,
{
    lemma_mul_upper_bound(src, 255, a, 255);
    lemma_mul_upper_bound(dst, 255, 255 - a, 255 - a);
    assert(src * a >= 0) by (nonlinear_arith)
        requires
            src >= 0,
            a >= 0,
    ;
    assert(dst * (255 - a) >= 0) by (nonlinear_arith)
        requires
            dst >= 0,
            a <= 255,
    ;
    assert(src * a <= 255 * a) by (nonlinear_arith)
        requires
            0 <= src <= 255,
            a >= 0,
    ;
    lemma_div_is_ordered(0, src * a + dst * (255 - a), 256);
    lemma_div_is_ordered(src * a + dst * (255 - a), 255 * a + 255 * (255 - a), 256);
    assert(255 * a + 255 * (255 - a) == 65025);
    assert(65025int / 256 == 254);
}

/// The sum of two floored quotients is at most the floored quotient of the
/// sum.
proof fn lemma_div_sum(a: int, b: int, n: int)
    requires
        a >= 0,
        b >= 0,
        n > 0,
    ensures
        a / n + b / n <= (a + b) / n,
{
    lemma_fundamental_div_mod(a, n);
    lemma_fundamental_div_mod(b, n);
    lemma_mod_bound(a, n);
    lemma_mod_bound(b, n);
    assert(n * (a / n + b / n) == n * (a / n) + n * (b / n)) by (nonlinear_arith);
    lemma_div_is_ordered(n * (a / n + b / n), a + b, n);
    lemma_div_multiples_vanish(a / n + b / n, n);
}

/// `tint_channel` stays within a byte whenever its inputs are channel values
/// and `sa` is an effective alpha produced by `tint_alpha`.
pub proof fn lemma_tint_channel_bound(dst: int, src: int, color: int, sa: int)
    requires
        0 <= dst <= 255,
        0 <= src <= 255,
        0 <= color <= 255,
        0 <= sa <= 254,
    ensures
        0 <= tint_channel(dst, src, color, sa) <= 254,
{
    let t1 = src * color * sa;
    let t2 = dst * (255 - sa);
    lemma_mul_upper_bound(src, 255, color, 255);
    lemma_mul_nonnegative(src, color);
    lemma_mul_inequality(src * color, 65025, sa);
    lemma_mul_nonnegative(src * color, sa);
    assert(0 <= t1 && t1 <= 65025 * sa);
    lemma_mul_inequality(dst, 255, 255 - sa);
    lemma_mul_nonnegative(dst, 255 - sa);
    assert(0 <= t2 && t2 <= 255 * (255 - sa));
    lemma_div_is_ordered(0, t1, 65536);
    lemma_div_is_ordered(0, t2, 256);
    // t2 / 256 == (256 * t2) / 65536
    assert(t2 / 256 == (256 * t2) / 65536) by {
        lemma_fundamental_div_mod(t2, 256);
        let q = t2 / 256;
        let r = t2 % 256;
        assert(256 * t2 == 65536 * q + 256 * r) by (nonlinear_arith)
            requires
                t2 == 256 * q + r,
        ;
        lemma_fundamental_div_mod_65536(256 * t2, q, 256 * r);
    }
    lemma_div_sum(t1, 256 * t2, 65536);
    assert(256 * t2 <= 256 * (255 * (255 - sa))) by (nonlinear_arith)
        requires
            t2 <= 255 * (255 - sa),
    ;
    assert(t1 + 256 * t2 <= 65025 * sa + 65280 * (255 - sa));
    assert(65025 * sa + 65280 * (255 - sa) == 16646400 - 255 * sa);
    lemma_div_is_ordered(t1 + 256 * t2, 16646400, 65536);
    assert(16646400int / 65536 == 254);
}

/// `x == 65536 * q + r` with `r` in range pins `q` as the quotient by 65536.
proof fn lemma_fundamental_div_mod_65536(x: int, q: int, r: int)
    requires
        x == 65536 * q + r,
        0 <= r < 65536,
    ensures
        x / 65536 == q,
{
    vstd::arithmetic::div_mod::lemma_fundamental_div_mod_converse(x, 65536, q, r);
}

/// `tint_alpha` stays within a byte.
pub proof fn lemma_tint_alpha_bound(src_a: int, color_a: int)
    requires
        0 <= src_a <= 255,
        0 <= color_a <= 255,
    ensures
        0 <= tint_alpha(src_a, color_a) <= 254,
{
    lemma_mul_upper_bound(src_a, 255, color_a, 255);
    assert(src_a * color_a >= 0) by (nonlinear_arith)
        requires
            src_a >= 0,
            color_a >= 0,
    ;
    lemma_div_is_ordered(0, src_a * color_a, 256);
    lemma_div_is_ordered(src_a * color_a, 65025, 256);
    assert(65025int / 256 == 254);
}

/// Computes one channel of the tinted blend in 32-bit arithmetic.
fn tint_channel_exec(dst: u8, src: u8, color: u8, sa: u32) -> (v: u32)
    requires
        sa <= 254,
    ensures
        v == tint_channel(dst as int, src as int, color as int, sa as int),
        v <= 254,
{
    proof {
        lemma_tint_channel_bound(dst as int, src as int, color as int, sa as int);
        lemma_mul_upper_bound(src as int, 255, color as int, 255);
        lemma_mul_nonnegative(src as int, color as int);
    }
    let t = src as u32 * color as u32;
    proof {
        lemma_mul_upper_bound(t as int, 65025, sa as int, 254);
        lemma_mul_nonnegative(t as int, sa as int);
    }
    t * sa / 65536 + dst as u32 * (255 - sa) / 256
}

impl Color {
    /// Fully transparent black.
    pub fn default() -> (c: Color)
        ensures
            c == (Color { b: 0, g: 0, r: 0, a: 0 }),
    {
        Color { b: 0, g: 0, r: 0, a: 0 }
    }

    /// Blends `src` over `self` channel by channel with `src`'s own alpha;
    /// the destination alpha is kept.
    pub fn blend_pixel(self, src: Color) -> (c: Color)
        ensures
            c == blend_pixel_spec(self, src),
    {
        proof {
            lemma_blend_channel_bound(self.r as int, src.r as int, src.a as int);
            lemma_blend_channel_bound(self.g as int, src.g as int, src.a as int);
            lemma_blend_channel_bound(self.b as int, src.b as int, src.a as int);
        }
        let a = src.a as u32;
        let ia = 255 - a;
        let r = (src.r as u32 * a + self.r as u32 * ia) / 256;
        let g = (src.g as u32 * a + self.g as u32 * ia) / 256;
        let b = (src.b as u32 * a + self.b as u32 * ia) / 256;
        Color { b: b as u8, g: g as u8, r: r as u8, a: self.a }
    }

    /// Blends a glyph-atlas pixel `src`, tinted by the draw color `color`,
    /// over `self`. The source alpha is first scaled by `color.a`, then each
    /// source channel is scaled by the matching channel of `color` before the
    /// blend; the destination alpha is kept.
    pub fn blend_pixel2(self, src: Color, color: Color) -> (c: Color)
        ensures
            c == blend_pixel2_spec(self, src, color),
    {
        proof {
            lemma_tint_alpha_bound(src.a as int, color.a as int);
        }
        let sa = src.a as u32 * color.a as u32 / 256;
        let r = tint_channel_exec(self.r, src.r, color.r, sa);
        let g = tint_channel_exec(self.g, src.g, color.g, sa);
        let b = tint_channel_exec(self.b, src.b, color.b, sa);
        Color { b: b as u8, g: g as u8, r: r as u8, a: self.a }
    }
}

} // verus!
