//! The pixel compositor: a current clip rectangle and the draw operations
//! that blend rectangles and glyph images onto a target pixel buffer, every
//! write clamped against the clip.

use vstd::prelude::*;

verus! {

use crate::color::{blend_pixel2_spec, blend_pixel_spec, Color};
use crate::font::{char_glyph, char_page, page_of, Font, MAX_METRIC};
use crate::geometry::{Rect, MAX_COORD};
use crate::image::{lemma_pixel_idx_bounds, lemma_row_major, Image};
use vstd::string::StrSliceExecFns;

/// Bound on the pen position handed to a glyph blit: a text pen stays within
/// `MAX_COORD` and a glyph offset within `MAX_METRIC`.
pub const MAX_DRAW: i32 = MAX_COORD + MAX_METRIC;

/// The current clip rectangle, stored as its four edges. `left..right` and
/// `top..bottom` are half-open; an inverted pair is an empty clip.
#[derive(Clone, Copy, Debug, PartialEq, Eq, Structural)]
pub struct Clip {
    pub left: i32,
    pub top: i32,
    pub right: i32,
    pub bottom: i32,
}

impl Clip {
    /// The pixel at `(px, py)` passes the clip.
    pub open spec fn contains(self, px: int, py: int) -> bool {
        self.left <= px < self.right && self.top <= py < self.bottom
    }

    /// The clip cannot let a draw reach outside the target image: either it
    /// is empty (nothing is drawn at all), or its edges lie within the image.
    pub open spec fn valid_for(self, img: Image) -> bool {
        ||| self.left >= self.right
        ||| self.top >= self.bottom
        ||| (0 <= self.left && 0 <= self.top && self.right <= img.width && self.bottom
            <= img.height)
    }
}

/// What a rectangle fill writes over a destination pixel: the color itself
/// when opaque (the fast path has no blend arithmetic), the blend otherwise.
pub open spec fn rect_pixel(dst: Color, color: Color) -> Color {
    if color.a == 255 {
        color
    } else {
        blend_pixel_spec(dst, color)
    }
}

/// One destination pixel after a rectangle fill: filled when the color is
/// not fully transparent and the pixel lies in the rectangle and passes the
/// clip; untouched otherwise.
pub open spec fn draw_rect_pixel(
    dst: Color,
    rect: Rect,
    color: Color,
    clip: Clip,
    px: int,
    py: int,
) -> Color {
    if color.a != 0 && rect.contains(px, py) && clip.contains(px, py) {
        rect_pixel(dst, color)
    } else {
        dst
    }
}

/// One destination pixel after blitting the sub-rectangle `sub` of `atlas`
/// to `(x, y)`: the matching atlas pixel is tinted and blended when the
/// pixel lies in the blit region and passes the clip; untouched otherwise.
pub open spec fn blit_pixel(
    dst: Color,
    atlas: Image,
    sub: Rect,
    x: int,
    y: int,
    color: Color,
    clip: Clip,
    px: int,
    py: int,
) -> Color {
    if color.a != 0 && x <= px < x + sub.width && y <= py < y + sub.height && clip.contains(
        px,
        py,
    ) {
        blend_pixel2_spec(dst, atlas.pixel(sub.x + px - x, sub.y + py - y), color)
    } else {
        dst
    }
}

/// The atlas sub-rectangle holding a glyph's bitmap.
pub open spec fn glyph_sub(g: crate::font::GlyphMetric) -> Rect {
    Rect { x: g.x0, y: g.y0, width: (g.x1 - g.x0) as i32, height: (g.y1 - g.y0) as i32 }
}

/// One destination pixel after drawing the first `k` codepoints of a text
/// run at `(x, y)`: the per-glyph blits applied in text order, each glyph
/// blitted at the pen position (the start plus the advances before it) plus
/// its own offsets.
pub open spec fn text_pixel(
    font: Font,
    text: Seq<char>,
    x: int,
    y: int,
    color: Color,
    clip: Clip,
    k: int,
    dst: Color,
    px: int,
    py: int,
) -> Color
    decreases k,
{
    if k <= 0 {
        dst
    } else {
        let prev = text_pixel(font, text, x, y, color, clip, k - 1, dst, px, py);
        let g = font.glyph(text[k - 1]);
        blit_pixel(
            prev,
            font.page(text[k - 1]).image,
            glyph_sub(g),
            x + font.measured_prefix(text, k - 1) + g.xoff,
            y + g.yoff,
            color,
            clip,
            px,
            py,
        )
    }
}

/// The pixel compositor's state: the clip every draw call below clamps
/// against.
pub struct Renderer {
    pub clip: Clip,
}

impl Renderer {
    /// A compositor whose clip is the whole target of the given size.
    pub fn init(width: i32, height: i32) -> (r: Renderer)
        ensures
            r.clip == (Clip { left: 0, top: 0, right: width, bottom: height }),
    {
        Renderer { clip: Clip { left: 0, top: 0, right: width, bottom: height } }
    }

    /// Replaces the clip with `rect`. Callers are expected to have already
    /// intersected `rect` with the target bounds.
    pub fn set_clip_rect(&mut self, rect: Rect)
        requires
            rect.wf(),
        ensures
            final(self).clip == (Clip {
                left: rect.x,
                top: rect.y,
                right: (rect.x + rect.width) as i32,
                bottom: (rect.y + rect.height) as i32,
            }),
    {
        self.clip = Clip {
            left: rect.x,
            top: rect.y,
            right: rect.x + rect.width,
            bottom: rect.y + rect.height,
        };
    }

    /// Fills `rect`, clamped to the clip, with `color`: a no-op when fully
    /// transparent, an exact overwrite when opaque, a source-over blend
    /// otherwise. No pixel outside `rect` or the clip changes.
    pub fn draw_rect(&self, target: &mut Image, rect: Rect, color: Color)
        requires
            old(target).wf(),
            self.clip.valid_for(*old(target)),
            rect.wf(),
        ensures
            final(target).wf(),
            final(target).width == old(target).width,
            final(target).height == old(target).height,
            forall|px: int, py: int|
                old(target).in_bounds(px, py) ==> #[trigger] final(target).pixel(px, py)
                    == draw_rect_pixel(
                    old(target).pixel(px, py),
                    rect,
                    color,
                    self.clip,
                    px,
                    py,
                ),
    {
        let ghost orig = old(target).pixels@;
        let ghost w = old(target).width as int;
        if color.a == 0 {
            proof {
                assert(target.pixels@ =~= orig);
            }
            return ;
        }
        let x1 = if rect.x >= self.clip.left {
            rect.x
        } else {
            self.clip.left
        };
        let y1 = if rect.y >= self.clip.top {
            rect.y
        } else {
            self.clip.top
        };
        let rx2 = rect.x + rect.width;
        let ry2 = rect.y + rect.height;
        let x2 = if rx2 <= self.clip.right {
            rx2
        } else {
            self.clip.right
        };
        let y2 = if ry2 <= self.clip.bottom {
            ry2
        } else {
            self.clip.bottom
        };
        let opaque = color.a == 255;
        let mut yy = y1;
        while yy < y2
            invariant
                target.width == old(target).width,
                target.height == old(target).height,
                target.wf(),
                old(target).wf(),
                self.clip.valid_for(*old(target)),
                rect.wf(),
                color.a != 0,
                opaque == (color.a == 255),
                orig == old(target).pixels@,
                w == old(target).width as int,
                x1 as int == vstd::math::max(rect.x as int, self.clip.left as int),
                y1 as int == vstd::math::max(rect.y as int, self.clip.top as int),
                x2 as int == vstd::math::min(rect.right(), self.clip.right as int),
                y2 as int == vstd::math::min(rect.bottom(), self.clip.bottom as int),
                y1 <= yy,
                y2 <= yy || y1 <= yy <= y2,
                forall|i: int|
                    0 <= i < orig.len() ==> #[trigger] target.pixels@[i] == (if rect.contains(
                        i % w,
                        i / w,
                    ) && self.clip.contains(i % w, i / w) && i / w < yy {
                        rect_pixel(orig[i], color)
                    } else {
                        orig[i]
                    }),
            decreases y2 - yy,
        {
            let mut xx = x1;
            while xx < x2
                invariant
                    target.width == old(target).width,
                    target.height == old(target).height,
                    target.wf(),
                    old(target).wf(),
                    self.clip.valid_for(*old(target)),
                    rect.wf(),
                    color.a != 0,
                    opaque == (color.a == 255),
                    orig == old(target).pixels@,
                    w == old(target).width as int,
                    x1 as int == vstd::math::max(rect.x as int, self.clip.left as int),
                    y1 as int == vstd::math::max(rect.y as int, self.clip.top as int),
                    x2 as int == vstd::math::min(rect.right(), self.clip.right as int),
                    y2 as int == vstd::math::min(rect.bottom(), self.clip.bottom as int),
                    y1 <= yy < y2,
                    x1 <= xx,
                    x2 <= xx || x1 <= xx <= x2,
                    forall|i: int|
                        0 <= i < orig.len() ==> #[trigger] target.pixels@[i] == (if rect.contains(
                            i % w,
                            i / w,
                        ) && self.clip.contains(i % w, i / w) && (i / w < yy || (i / w == yy && i
                            % w < xx)) {
                            rect_pixel(orig[i], color)
                        } else {
                            orig[i]
                        }),
                decreases x2 - xx,
            {
                proof {
                    lemma_row_major(w, xx as int, yy as int);
                    lemma_pixel_idx_bounds(*target, xx as int, yy as int);
                    vstd::arithmetic::mul::lemma_mul_upper_bound(
                        yy as int,
                        crate::image::MAX_DIM as int,
                        target.width as int,
                        crate::image::MAX_DIM as int,
                    );
                }
                let idx = (yy * target.width + xx) as usize;
                proof {
                    assert forall|i: int|
                        0 <= i < orig.len() && #[trigger] (i / w) == yy as int && i % w
                        == xx as int implies i == idx as int by {
                        vstd::arithmetic::div_mod::lemma_fundamental_div_mod(i, w);
                        assert(i == w * (i / w) + i % w);
                        assert(w * (yy as int) == (yy as int) * w) by (nonlinear_arith);
                    }
                }
                if opaque {
                    target.pixels[idx] = color;
                } else {
                    let dst = target.pixels[idx];
                    target.pixels[idx] = dst.blend_pixel(color);
                }
                xx = xx + 1;
            }
            yy = yy + 1;
        }
        proof {
            assert forall|px: int, py: int| old(target).in_bounds(px, py) implies target.pixel(
                px,
                py,
            ) == (if color.a != 0 && rect.contains(px, py) && self.clip.contains(px, py) {
                rect_pixel(old(target).pixel(px, py), color)
            } else {
                old(target).pixel(px, py)
            }) by {
                lemma_row_major(w, px, py);
                lemma_pixel_idx_bounds(*old(target), px, py);
            }
        }
    }

    /// Blits the sub-rectangle `sub` of the atlas `image` to `(x, y)`,
    /// clamped against the clip, tinting every source pixel by `color`: a
    /// no-op when `color` is fully transparent. No pixel outside the blit
    /// region or the clip changes.
    pub fn draw_image(&self, target: &mut Image, image: &Image, sub: Rect, x: i32, y: i32, color:
        Color)
        requires
            old(target).wf(),
            self.clip.valid_for(*old(target)),
            image.wf(),
            0 <= sub.x,
            0 <= sub.y,
            0 <= sub.width,
            0 <= sub.height,
            sub.x + sub.width <= image.width,
            sub.y + sub.height <= image.height,
            -MAX_DRAW <= x <= MAX_DRAW,
            -MAX_DRAW <= y <= MAX_DRAW,
        ensures
            final(target).wf(),
            final(target).width == old(target).width,
            final(target).height == old(target).height,
            forall|px: int, py: int|
                old(target).in_bounds(px, py) ==> #[trigger] final(target).pixel(px, py)
                    == blit_pixel(
                    old(target).pixel(px, py),
                    *image,
                    sub,
                    x as int,
                    y as int,
                    color,
                    self.clip,
                    px,
                    py,
                ),
    {
        let ghost orig = old(target).pixels@;
        let ghost w = old(target).width as int;
        if color.a == 0 {
            proof {
                assert(target.pixels@ =~= orig);
            }
            return ;
        }
        let x1 = if x >= self.clip.left {
            x
        } else {
            self.clip.left
        };
        let y1 = if y >= self.clip.top {
            y
        } else {
            self.clip.top
        };
        let dx2 = x + sub.width;
        let dy2 = y + sub.height;
        let x2 = if dx2 <= self.clip.right {
            dx2
        } else {
            self.clip.right
        };
        let y2 = if dy2 <= self.clip.bottom {
            dy2
        } else {
            self.clip.bottom
        };
        let mut yy = y1;
        while yy < y2
            invariant
                target.width == old(target).width,
                target.height == old(target).height,
                target.wf(),
                old(target).wf(),
                self.clip.valid_for(*old(target)),
                image.wf(),
                0 <= sub.x,
                0 <= sub.y,
                0 <= sub.width,
                0 <= sub.height,
                sub.x + sub.width <= image.width,
                sub.y + sub.height <= image.height,
                -MAX_DRAW <= x <= MAX_DRAW,
                -MAX_DRAW <= y <= MAX_DRAW,
                color.a != 0,
                orig == old(target).pixels@,
                w == old(target).width as int,
                x1 as int == vstd::math::max(x as int, self.clip.left as int),
                y1 as int == vstd::math::max(y as int, self.clip.top as int),
                x2 as int == vstd::math::min(x + sub.width, self.clip.right as int),
                y2 as int == vstd::math::min(y + sub.height, self.clip.bottom as int),
                y1 <= yy,
                y2 <= yy || y1 <= yy <= y2,
                forall|i: int|
                    0 <= i < orig.len() ==> #[trigger] target.pixels@[i] == (if x <= i % w < x
                        + sub.width && y <= i / w < y + sub.height && self.clip.contains(
                        i % w,
                        i / w,
                    ) && i / w < yy {
                        blend_pixel2_spec(
                            orig[i],
                            image.pixel(sub.x + (i % w) - x, sub.y + (i / w) - y),
                            color,
                        )
                    } else {
                        orig[i]
                    }),
            decreases y2 - yy,
        {
            let mut xx = x1;
            while xx < x2
                invariant
                    target.width == old(target).width,
                    target.height == old(target).height,
                    target.wf(),
                    old(target).wf(),
                    self.clip.valid_for(*old(target)),
                    image.wf(),
                    0 <= sub.x,
                    0 <= sub.y,
                    0 <= sub.width,
                    0 <= sub.height,
                    sub.x + sub.width <= image.width,
                    sub.y + sub.height <= image.height,
                    -MAX_DRAW <= x <= MAX_DRAW,
                    -MAX_DRAW <= y <= MAX_DRAW,
                    color.a != 0,
                    orig == old(target).pixels@,
                    w == old(target).width as int,
                    x1 as int == vstd::math::max(x as int, self.clip.left as int),
                    y1 as int == vstd::math::max(y as int, self.clip.top as int),
                    x2 as int == vstd::math::min(x + sub.width, self.clip.right as int),
                    y2 as int == vstd::math::min(y + sub.height, self.clip.bottom as int),
                    y1 <= yy < y2,
                    x1 <= xx,
                    x2 <= xx || x1 <= xx <= x2,
                    forall|i: int|
                        0 <= i < orig.len() ==> #[trigger] target.pixels@[i] == (if x <= i % w < x
                            + sub.width && y <= i / w < y + sub.height && self.clip.contains(
                            i % w,
                            i / w,
                        ) && (i / w < yy || (i / w == yy && i % w < xx)) {
                            blend_pixel2_spec(
                                orig[i],
                                image.pixel(sub.x + (i % w) - x, sub.y + (i / w) - y),
                                color,
                            )
                        } else {
                            orig[i]
                        }),
                decreases x2 - xx,
            {
                let spx = sub.x + (xx - x);
                let spy = sub.y + (yy - y);
                proof {
                    lemma_row_major(w, xx as int, yy as int);
                    lemma_pixel_idx_bounds(*target, xx as int, yy as int);
                    lemma_row_major(image.width as int, spx as int, spy as int);
                    lemma_pixel_idx_bounds(*image, spx as int, spy as int);
                    vstd::arithmetic::mul::lemma_mul_upper_bound(
                        yy as int,
                        crate::image::MAX_DIM as int,
                        target.width as int,
                        crate::image::MAX_DIM as int,
                    );
                    vstd::arithmetic::mul::lemma_mul_upper_bound(
                        spy as int,
                        crate::image::MAX_DIM as int,
                        image.width as int,
                        crate::image::MAX_DIM as int,
                    );
                }
                let sidx = (spy * image.width + spx) as usize;
                let didx = (yy * target.width + xx) as usize;
                proof {
                    assert forall|i: int|
                        0 <= i < orig.len() && #[trigger] (i / w) == yy as int && i % w
                        == xx as int implies i == didx as int by {
                        vstd::arithmetic::div_mod::lemma_fundamental_div_mod(i, w);
                        assert(i == w * (i / w) + i % w);
                        assert(w * (yy as int) == (yy as int) * w) by (nonlinear_arith);
                    }
                }
                let dst = target.pixels[didx];
                let src = image.pixels[sidx];
                target.pixels[didx] = dst.blend_pixel2(src, color);
                xx = xx + 1;
            }
            yy = yy + 1;
        }
        proof {
            assert forall|px: int, py: int| old(target).in_bounds(px, py) implies target.pixel(
                px,
                py,
            ) == (if color.a != 0 && x <= px < x + sub.width && y <= py < y + sub.height
                && self.clip.contains(px, py) {
                blend_pixel2_spec(
                    old(target).pixel(px, py),
                    image.pixel(sub.x + px - x, sub.y + py - y),
                    color,
                )
            } else {
                old(target).pixel(px, py)
            }) by {
                lemma_row_major(w, px, py);
                lemma_pixel_idx_bounds(*old(target), px, py);
            }
        }
    }

    /// Draws `text` at `(x, y)`: looks up each codepoint's glyph, blits its
    /// atlas sub-rectangle tinted by `color`, and advances the pen by the
    /// glyph's advance. Returns the final pen position, `x` plus the measured
    /// width. Nothing outside the clip changes.
    pub fn draw_text(&self, target: &mut Image, font: &Font, text: &str, x: i32, y: i32, color:
        Color) -> (nx: i32)
        requires
            old(target).wf(),
            self.clip.valid_for(*old(target)),
            font.wf(),
            font.pages_present(text@),
            -MAX_COORD <= x,
            x + font.measured(text@) <= MAX_COORD,
            -MAX_COORD <= y <= MAX_COORD,
        ensures
            final(target).wf(),
            final(target).width == old(target).width,
            final(target).height == old(target).height,
            nx == x + font.measured(text@),
            forall|px: int, py: int|
                old(target).in_bounds(px, py) ==> #[trigger] final(target).pixel(px, py)
                    == text_pixel(
                    *font,
                    text@,
                    x as int,
                    y as int,
                    color,
                    self.clip,
                    text@.len() as int,
                    old(target).pixel(px, py),
                    px,
                    py,
                ),
            forall|px: int, py: int|
                old(target).in_bounds(px, py) && !self.clip.contains(px, py) ==> final(target).pixel(px, py) == old(target).pixel(px, py),
    {
        let n = text.unicode_len();
        let mut pen = x;
        let mut k: usize = 0;
        while k < n
            invariant
                target.width == old(target).width,
                target.height == old(target).height,
                target.wf(),
                old(target).wf(),
                self.clip.valid_for(*old(target)),
                font.wf(),
                font.pages_present(text@),
                n == text@.len(),
                k <= n,
                -MAX_COORD <= x,
                x + font.measured(text@) <= MAX_COORD,
                -MAX_COORD <= y <= MAX_COORD,
                pen == x + font.measured_prefix(text@, k as int),
                forall|px: int, py: int|
                    old(target).in_bounds(px, py) ==> #[trigger] target.pixel(px, py)
                        == text_pixel(
                        *font,
                        text@,
                        x as int,
                        y as int,
                        color,
                        self.clip,
                        k as int,
                        old(target).pixel(px, py),
                        px,
                        py,
                    ),
                forall|px: int, py: int|
                    old(target).in_bounds(px, py) && !self.clip.contains(px, py)
                        ==> target.pixel(px, py) == old(target).pixel(px, py),
            decreases n - k,
        {
            proof {
                crate::font::lemma_measured_prefix_monotone(*font, text@, 0, k as int);
                crate::font::lemma_measured_prefix_monotone(*font, text@, k as int, n as int);
                crate::font::lemma_measured_prefix_monotone(*font, text@, k + 1, n as int);
            }
            let c = text.get_char(k);
            let page = char_page(c);
            let gidx = char_glyph(c);
            let set = match font.sets[page].as_ref() {
                Some(s) => s,
                None => {
                    proof {
                        assert(font.has_page(page_of(text@[k as int])));
                        assert(false);
                    }
                    return pen;
                },
            };
            let g = set.glyphs[gidx];
            let sub = Rect { x: g.x0, y: g.y0, width: g.x1 - g.x0, height: g.y1 - g.y0 };
            let ghost pre = *target;
            self.draw_image(target, &set.image, sub, pen + g.xoff, y + g.yoff, color);
            proof {
                assert(*set == font.page(text@[k as int]));
                assert(g == font.glyph(text@[k as int]));
                assert(sub == glyph_sub(g));
                assert forall|px: int, py: int| old(target).in_bounds(px, py) implies #[trigger]
                    target.pixel(px, py) == text_pixel(
                    *font,
                    text@,
                    x as int,
                    y as int,
                    color,
                    self.clip,
                    k + 1,
                    old(target).pixel(px, py),
                    px,
                    py,
                ) by {
                    assert(target.pixel(px, py) == blit_pixel(
                        pre.pixel(px, py),
                        set.image,
                        sub,
                        pen + g.xoff,
                        y + g.yoff,
                        color,
                        self.clip,
                        px,
                        py,
                    ));
                    assert(pre.pixel(px, py) == text_pixel(
                        *font,
                        text@,
                        x as int,
                        y as int,
                        color,
                        self.clip,
                        k as int,
                        old(target).pixel(px, py),
                        px,
                        py,
                    ));
                }
            }
            pen = pen + g.xadvance;
            k = k + 1;
        }
        pen
    }
}

} // verus!
