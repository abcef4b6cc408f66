//! The font and glyph-cache model: rasterized glyph pages, text measurement
//! and the metric bookkeeping done when a page is installed.
//!
//! Rasterization itself (parsing the font file and baking coverage bitmaps)
//! happens outside this library; a baked page is handed in as plain values
//! and everything done with it from then on is verified.

use vstd::prelude::*;

verus! {

use crate::color::Color;
use crate::geometry::MAX_COORD;
use crate::image::{Image, MAX_DIM};
use vstd::string::StrSliceExecFns;

/// Glyph pages per font: glyphs are cached in pages of 256 codepoints,
/// indexed by the high byte of the codepoint.
pub const FONT_PAGES: usize = 256;

/// Glyphs per page.
pub const PAGE_GLYPHS: usize = 256;

/// Bound on every glyph metric (offsets, advances) and on a font's line
/// height, in pixels.
pub const MAX_METRIC: i32 = 65536;

/// Codepoint of the tab character, whose glyph is patched at load time.
pub const TAB_CODEPOINT: usize = 9;

/// Codepoint of the newline character, whose glyph is patched at load time.
pub const NEWLINE_CODEPOINT: usize = 10;

/// Layout record of one baked glyph: its bitmap rectangle `x0..x1 x y0..y1`
/// inside the atlas, the offset of that bitmap from the pen position, and the
/// horizontal advance (already floored to a whole pixel).
#[derive(Clone, Copy, Debug, PartialEq, Eq, Structural)]
pub struct GlyphMetric {
    pub x0: i32,
    pub y0: i32,
    pub x1: i32,
    pub y1: i32,
    pub xoff: i32,
    pub yoff: i32,
    pub xadvance: i32,
}

impl GlyphMetric {
    /// The bitmap rectangle lies inside an atlas of the given size and every
    /// offset and advance is bounded.
    pub open spec fn wf(self, atlas_w: int, atlas_h: int) -> bool {
        &&& 0 <= self.x0 <= self.x1 <= atlas_w
        &&& 0 <= self.y0 <= self.y1 <= atlas_h
        &&& -MAX_METRIC <= self.xoff <= MAX_METRIC
        &&& -MAX_METRIC <= self.yoff <= MAX_METRIC
        &&& 0 <= self.xadvance <= MAX_METRIC
    }
}

/// One rasterized glyph page: the atlas image and the 256 glyph records baked
/// into it.
#[derive(Debug)]
pub struct GlyphSet {
    pub image: Image,
    pub glyphs: Vec<GlyphMetric>,
}

impl GlyphSet {
    pub open spec fn wf(self) -> bool {
        &&& self.image.wf()
        &&& self.glyphs@.len() == PAGE_GLYPHS
        &&& forall|k: int|
            0 <= k < PAGE_GLYPHS ==> (#[trigger] self.glyphs@[k]).wf(
                self.image.width as int,
                self.image.height as int,
            )
    }
}

/// A glyph page as the rasterizer delivers it: atlas dimensions, one coverage
/// byte per atlas pixel, and the raw metrics of its 256 glyphs (vertical
/// offsets not yet shifted to the common baseline).
#[derive(Debug)]
pub struct BakedPage {
    pub atlas_width: i32,
    pub atlas_height: i32,
    pub coverage: Vec<u8>,
    pub glyphs: Vec<GlyphMetric>,
}

/// A baked page is acceptable: plausible atlas dimensions, exactly one
/// coverage byte per pixel, 256 glyph records, and every metric in bounds
/// both before and after the baseline shift by `ascent`.
pub open spec fn valid_page(p: BakedPage, ascent: int) -> bool {
    &&& 1 <= p.atlas_width <= MAX_DIM
    &&& 1 <= p.atlas_height <= MAX_DIM
    &&& p.coverage@.len() == p.atlas_width * p.atlas_height
    &&& p.glyphs@.len() == PAGE_GLYPHS
    &&& forall|k: int|
        0 <= k < PAGE_GLYPHS ==> {
            let g = #[trigger] p.glyphs@[k];
            &&& g.wf(p.atlas_width as int, p.atlas_height as int)
            &&& -MAX_METRIC <= g.yoff + ascent <= MAX_METRIC
        }
}

/// A raw metric after the baseline shift: the vertical offset is moved down
/// by the font's rounded scaled ascent, so glyphs of one line share a
/// baseline.
pub open spec fn shifted_metric(g: GlyphMetric, ascent: int) -> GlyphMetric {
    GlyphMetric { yoff: (g.yoff + ascent) as i32, ..g }
}

/// The glyph page every codepoint is cached under: the high byte, wrapped
/// into the fixed page range.
pub open spec fn page_of(cp: char) -> int {
    (cp as u32) as int / 256 % 256
}

/// The slot of a codepoint inside its page: the low byte.
pub open spec fn glyph_of(cp: char) -> int {
    (cp as u32) as int % 256
}

/// A font: its nominal pixel size, the line height computed at load time
/// from the scaled vertical metrics, and up to 256 lazily installed glyph
/// pages. The page of the control characters (page 0) is installed at
/// construction and stays present.
#[derive(Debug)]
pub struct Font {
    pub size: i32,
    pub height: i32,
    pub sets: Vec<Option<GlyphSet>>,
}

impl Font {
    pub open spec fn wf(self) -> bool {
        &&& self.sets@.len() == FONT_PAGES
        &&& 0 <= self.size <= MAX_METRIC
        &&& 0 <= self.height <= MAX_METRIC
        &&& self.sets@[0] is Some
        &&& forall|p: int|
            0 <= p < FONT_PAGES && self.sets@[p] is Some ==> (#[trigger] self.sets@[p])->0.wf()
    }

    /// Page `p` has been installed.
    pub open spec fn has_page(self, p: int) -> bool {
        0 <= p < FONT_PAGES && self.sets@[p] is Some
    }

    /// The installed page holding `cp`'s glyph.
    pub open spec fn page(self, cp: char) -> GlyphSet {
        self.sets@[page_of(cp)]->0
    }

    /// The metric record of `cp`'s glyph.
    pub open spec fn glyph(self, cp: char) -> GlyphMetric {
        self.page(cp).glyphs@[glyph_of(cp)]
    }

    /// Every codepoint of `text` has its page installed.
    pub open spec fn pages_present(self, text: Seq<char>) -> bool {
        forall|i: int| 0 <= i < text.len() ==> self.has_page(page_of(#[trigger] text[i]))
    }

    /// Width of the first `k` codepoints of `text`: the sum of their glyph
    /// advances.
    pub open spec fn measured_prefix(self, text: Seq<char>, k: int) -> int
        decreases k,
    {
        if k <= 0 {
            0
        } else {
            self.measured_prefix(text, k - 1) + self.glyph(text[k - 1]).xadvance
        }
    }

    /// Width of `text`: the sum of its codepoints' glyph advances.
    pub open spec fn measured(self, text: Seq<char>) -> int {
        self.measured_prefix(text, text.len() as int)
    }

    /// Index of the first codepoint of `text` whose page is missing
    /// (`text.len()` when every page is present).
    pub open spec fn first_missing(self, text: Seq<char>) -> int
        decreases text.len(),
    {
        if text.len() == 0 {
            0
        } else if !self.has_page(page_of(text[0])) {
            0
        } else {
            1 + self.first_missing(text.drop_first())
        }
    }

    /// Builds a font from its load-time data: the nominal size, the computed
    /// line height, and the baked page of the control characters. Installing
    /// that page patches the tab and newline glyphs to zero-width bitmaps so
    /// they never draw. Returns `None` when the page data or the metrics are
    /// out of bounds.
    pub fn new(size: i32, height: i32, page0: BakedPage, scaled_ascent: i32) -> (r: Option<Font>)
        requires
            -MAX_METRIC <= scaled_ascent <= MAX_METRIC,
        ensures
            r is Some <==> valid_page(page0, scaled_ascent as int) && 0 <= size <= MAX_METRIC && 0
                <= height <= MAX_METRIC,
            r is Some ==> {
                let f = r->0;
                &&& f.wf()
                &&& f.size == size
                &&& f.height == height
                &&& f.has_page(0)
                &&& forall|p: int| 0 < p < FONT_PAGES ==> !f.has_page(p)
                &&& forall|k: int|
                    0 <= k < PAGE_GLYPHS ==> #[trigger] f.sets@[0]->0.glyphs@[k] == load_metric(
                        page0.glyphs@[k],
                        scaled_ascent as int,
                        k,
                    )
                &&& f.sets@[0]->0.image.width == page0.atlas_width
                &&& f.sets@[0]->0.image.height == page0.atlas_height
                &&& forall|i: int|
                    0 <= i < page0.coverage@.len() ==> #[trigger] f.sets@[0]->0.image.pixels@[i]
                        == (Color { b: 255, g: 255, r: 255, a: page0.coverage@[i] })
            },
    {
        if size < 0 || size > MAX_METRIC || height < 0 || height > MAX_METRIC {
            return None;
        }
        let mut font = Font { size, height, sets: empty_pages() };
        let ok = font.install_page(0, page0, scaled_ascent);
        if !ok {
            return None;
        }
        let patched = patch_control_glyphs(&mut font);
        if patched {
            Some(font)
        } else {
            None
        }
    }

    /// Installs a baked page after validating it: the coverage bitmap is
    /// converted into a white-RGB, alpha-coverage atlas image that draw calls
    /// tint, and every glyph's vertical offset is shifted by the rounded
    /// scaled ascent. Returns false (and leaves the font unchanged) when the
    /// page data is out of bounds.
    pub fn install_page(&mut self, page_idx: usize, data: BakedPage, scaled_ascent: i32) -> (ok:
        bool)
        requires
            old(self).sets@.len() == FONT_PAGES,
            page_idx < FONT_PAGES,
            -MAX_METRIC <= scaled_ascent <= MAX_METRIC,
            forall|p: int|
                0 <= p < FONT_PAGES && old(self).sets@[p] is Some ==> (#[trigger] old(self).sets@[p])->0.wf(),
        ensures
            ok == valid_page(data, scaled_ascent as int),
            final(self).size == old(self).size,
            final(self).height == old(self).height,
            final(self).sets@.len() == FONT_PAGES,
            forall|p: int|
                0 <= p < FONT_PAGES && final(self).sets@[p] is Some ==> (#[trigger] final(self).sets@[p])->0.wf(),
            !ok ==> final(self).sets@ == old(self).sets@,
            ok ==> {
                &&& forall|p: int|
                    0 <= p < FONT_PAGES && p != page_idx ==> #[trigger] final(self).sets@[p] == old(self).sets@[p]
                &&& final(self).sets@[page_idx as int] is Some
                &&& final(self).sets@[page_idx as int]->0.image.width == data.atlas_width
                &&& final(self).sets@[page_idx as int]->0.image.height == data.atlas_height
                &&& forall|i: int|
                    0 <= i < data.coverage@.len() ==> #[trigger] final(self).sets@[page_idx as int]->0.image.pixels@[i] == (Color {
                        b: 255,
                        g: 255,
                        r: 255,
                        a: data.coverage@[i],
                    })
                &&& forall|k: int|
                    0 <= k < PAGE_GLYPHS ==> #[trigger] final(self).sets@[page_idx as int]->0.glyphs@[k] == shifted_metric(
                        data.glyphs@[k],
                        scaled_ascent as int,
                    )
            },
    {
        if !check_page(&data, scaled_ascent) {
            return false;
        }
        let image = image_from_coverage(data.atlas_width, data.atlas_height, &data.coverage);
        let mut glyphs: Vec<GlyphMetric> = Vec::new();
        let mut k: usize = 0;
        while k < PAGE_GLYPHS
            invariant
                valid_page(data, scaled_ascent as int),
                -MAX_METRIC <= scaled_ascent <= MAX_METRIC,
                k <= PAGE_GLYPHS,
                glyphs@.len() == k,
                forall|j: int|
                    0 <= j < k ==> #[trigger] glyphs@[j] == shifted_metric(
                        data.glyphs@[j],
                        scaled_ascent as int,
                    ),
            decreases PAGE_GLYPHS - k,
        {
            let g = data.glyphs[k];
            let shifted = GlyphMetric { yoff: g.yoff + scaled_ascent, ..g };
            glyphs.push(shifted);
            k = k + 1;
        }
        let set = GlyphSet { image, glyphs };
        proof {
            assert(set.wf());
        }
        self.sets[page_idx] = Some(set);
        true
    }

    /// The precomputed line height.
    pub fn line_height(&self) -> (h: i32)
        ensures
            h == self.height,
    {
        self.height
    }

    /// Overrides the tab glyph's horizontal advance to exactly `n` pixels.
    pub fn set_tab_width(&mut self, n: i32)
        requires
            old(self).wf(),
            0 <= n <= MAX_METRIC,
        ensures
            final(self).wf(),
            final(self).size == old(self).size,
            final(self).height == old(self).height,
            final(self).sets@.len() == FONT_PAGES,
            forall|p: int|
                0 < p < FONT_PAGES ==> #[trigger] final(self).sets@[p] == old(self).sets@[p],
            final(self).sets@[0] is Some,
            final(self).sets@[0]->0.image == old(self).sets@[0]->0.image,
            final(self).sets@[0]->0.glyphs@ == old(self).sets@[0]->0.glyphs@.update(
                TAB_CODEPOINT as int,
                GlyphMetric {
                    xadvance: n,
                    ..old(self).sets@[0]->0.glyphs@[TAB_CODEPOINT as int]
                },
            ),
    {
        match self.sets[0].as_mut() {
            Some(set) => {
                let mut g = set.glyphs[TAB_CODEPOINT];
                g.xadvance = n;
                set.glyphs[TAB_CODEPOINT] = g;
            },
            None => {
            },
        }
    }

    /// Measures `text`: decodes it as a sequence of Unicode codepoints and
    /// sums their glyph advances. Reports the page of the first codepoint
    /// whose glyph page has not been installed, or that the total exceeds the
    /// renderer's coordinate bound.
    pub fn measure_width(&self, text: &str) -> (r: Result<i32, MeasureError>)
        requires
            self.wf(),
        ensures
            !self.pages_present(text@) ==> r == Result::<i32, MeasureError>::Err(
                MeasureError::MissingPage(
                    page_of(text@[self.first_missing(text@)]) as u8,
                ),
            ),
            self.pages_present(text@) && self.measured(text@) > MAX_COORD ==> r == Result::<
                i32,
                MeasureError,
            >::Err(MeasureError::TooWide),
            self.pages_present(text@) && self.measured(text@) <= MAX_COORD ==> r == Result::<
                i32,
                MeasureError,
            >::Ok(self.measured(text@) as i32),
    {
        let n = text.unicode_len();
        let mut i: usize = 0;
        while i < n
            invariant
                self.wf(),
                n == text@.len(),
                i <= n,
                forall|j: int| 0 <= j < i ==> self.has_page(page_of(#[trigger] text@[j])),
            decreases n - i,
        {
            let c = text.get_char(i);
            let page = char_page(c);
            if self.sets[page].is_none() {
                proof {
                    lemma_first_missing_at(*self, text@, i as int);
                }
                return Err(MeasureError::MissingPage(page as u8));
            }
            i = i + 1;
        }
        assert(self.pages_present(text@));
        let mut w: i32 = 0;
        let mut k: usize = 0;
        while k < n
            invariant
                self.wf(),
                self.pages_present(text@),
                n == text@.len(),
                k <= n,
                0 <= w <= MAX_COORD,
                w == self.measured_prefix(text@, k as int),
            decreases n - k,
        {
            let c = text.get_char(k);
            let page = char_page(c);
            let gidx = char_glyph(c);
            let adv = match self.sets[page].as_ref() {
                Some(set) => set.glyphs[gidx].xadvance,
                None => 0,
            };
            if w + adv > MAX_COORD {
                proof {
                    lemma_measured_prefix_monotone(*self, text@, k + 1, n as int);
                }
                return Err(MeasureError::TooWide);
            }
            w = w + adv;
            k = k + 1;
        }
        Ok(w)
    }
}

/// Why a text could not be measured.
#[derive(Clone, Copy, Debug, PartialEq, Eq, Structural)]
pub enum MeasureError {
    /// The glyph page with this index must be installed first.
    MissingPage(u8),
    /// The summed advances exceed the renderer's coordinate bound.
    TooWide,
}

/// A load-time page-0 metric: baseline-shifted, and with the bitmap of the
/// tab and newline glyphs patched to zero width.
pub open spec fn load_metric(g: GlyphMetric, ascent: int, k: int) -> GlyphMetric {
    let s = shifted_metric(g, ascent);
    if k == TAB_CODEPOINT || k == NEWLINE_CODEPOINT {
        GlyphMetric { x1: s.x0, ..s }
    } else {
        s
    }
}

/// The atlas size a glyph-page bake starts from.
pub fn initial_atlas_size() -> (s: (i32, i32))
    ensures
        s.0 == 128 && s.1 == 128,
{
    (128, 128)
}

/// The retry policy when a bake reports insufficient atlas space: double
/// both dimensions, up to the largest image the renderer handles.
pub fn grown_atlas_size(width: i32, height: i32) -> (s: Option<(i32, i32)>)
    requires
        1 <= width <= MAX_DIM,
        1 <= height <= MAX_DIM,
    ensures
        s is Some <==> 2 * width <= MAX_DIM && 2 * height <= MAX_DIM,
        s matches Some(d) ==> d.0 == 2 * width && d.1 == 2 * height,
{
    if width <= MAX_DIM / 2 && height <= MAX_DIM / 2 {
        Some((width * 2, height * 2))
    } else {
        None
    }
}

/// The page slot of a codepoint.
pub fn char_page(c: char) -> (p: usize)
    ensures
        p == page_of(c),
        p < FONT_PAGES,
{
    ((c as u32) / 256 % 256) as usize
}

/// The glyph slot of a codepoint inside its page.
pub fn char_glyph(c: char) -> (g: usize)
    ensures
        g == glyph_of(c),
        g < PAGE_GLYPHS,
{
    ((c as u32) % 256) as usize
}

/// 256 empty page slots.
fn empty_pages() -> (v: Vec<Option<GlyphSet>>)
    ensures
        v@.len() == FONT_PAGES,
        forall|p: int| 0 <= p < FONT_PAGES ==> v@[p] is None,
{
    let mut v: Vec<Option<GlyphSet>> = Vec::new();
    let mut i: usize = 0;
    while i < FONT_PAGES
        invariant
            i <= FONT_PAGES,
            v@.len() == i,
            forall|p: int| 0 <= p < i ==> v@[p] is None,
        decreases FONT_PAGES - i,
    {
        v.push(None);
        i = i + 1;
    }
    v
}

/// Exec check of `valid_page`.
fn check_page(data: &BakedPage, scaled_ascent: i32) -> (ok: bool)
    requires
        -MAX_METRIC <= scaled_ascent <= MAX_METRIC,
    ensures
        ok == valid_page(*data, scaled_ascent as int),
{
    if data.atlas_width < 1 || data.atlas_width > MAX_DIM || data.atlas_height < 1
        || data.atlas_height > MAX_DIM {
        return false;
    }
    proof {
        vstd::arithmetic::mul::lemma_mul_nonnegative(
            data.atlas_width as int,
            data.atlas_height as int,
        );
        vstd::arithmetic::mul::lemma_mul_upper_bound(
            data.atlas_width as int,
            MAX_DIM as int,
            data.atlas_height as int,
            MAX_DIM as int,
        );
    }
    let expected = (data.atlas_width as usize) * (data.atlas_height as usize);
    if data.coverage.len() != expected {
        return false;
    }
    if data.glyphs.len() != PAGE_GLYPHS {
        return false;
    }
    let mut k: usize = 0;
    while k < PAGE_GLYPHS
        invariant
            -MAX_METRIC <= scaled_ascent <= MAX_METRIC,
            data.glyphs@.len() == PAGE_GLYPHS,
            k <= PAGE_GLYPHS,
            forall|j: int|
                0 <= j < k ==> {
                    let g = #[trigger] data.glyphs@[j];
                    &&& g.wf(data.atlas_width as int, data.atlas_height as int)
                    &&& -MAX_METRIC <= g.yoff + scaled_ascent <= MAX_METRIC
                },
        decreases PAGE_GLYPHS - k,
    {
        let g = data.glyphs[k];
        if !(0 <= g.x0 && g.x0 <= g.x1 && g.x1 <= data.atlas_width) {
            return false;
        }
        if !(0 <= g.y0 && g.y0 <= g.y1 && g.y1 <= data.atlas_height) {
            return false;
        }
        if g.xoff < -MAX_METRIC || g.xoff > MAX_METRIC {
            return false;
        }
        if g.yoff < -MAX_METRIC || g.yoff > MAX_METRIC {
            return false;
        }
        if g.xadvance < 0 || g.xadvance > MAX_METRIC {
            return false;
        }
        let sh = g.yoff + scaled_ascent;
        if sh < -MAX_METRIC || sh > MAX_METRIC {
            return false;
        }
        k = k + 1;
    }
    true
}

/// Converts a coverage-only bitmap into the tintable atlas format: every
/// pixel is white with the coverage byte as its alpha.
fn image_from_coverage(width: i32, height: i32, coverage: &Vec<u8>) -> (img: Image)
    requires
        1 <= width <= MAX_DIM,
        1 <= height <= MAX_DIM,
        coverage@.len() == width * height,
    ensures
        img.wf(),
        img.width == width,
        img.height == height,
        forall|i: int|
            0 <= i < coverage@.len() ==> #[trigger] img.pixels@[i] == (Color {
                b: 255,
                g: 255,
                r: 255,
                a: coverage@[i],
            }),
{
    let n = coverage.len();
    let mut pixels: Vec<Color> = Vec::new();
    let mut i: usize = 0;
    while i < n
        invariant
            n == coverage@.len(),
            i <= n,
            pixels@.len() == i,
            forall|j: int|
                0 <= j < i ==> #[trigger] pixels@[j] == (Color {
                    b: 255,
                    g: 255,
                    r: 255,
                    a: coverage@[j],
                }),
        decreases n - i,
    {
        pixels.push(Color { b: 255, g: 255, r: 255, a: coverage[i] });
        i = i + 1;
    }
    Image { width, height, pixels }
}

/// Patches the tab and newline glyphs of page 0 to zero-width bitmaps, so
/// the whitespace control characters never draw atlas garbage. Returns false
/// only when page 0 is absent.
fn patch_control_glyphs(font: &mut Font) -> (ok: bool)
    requires
        old(font).sets@.len() == FONT_PAGES,
        forall|p: int|
            0 <= p < FONT_PAGES && old(font).sets@[p] is Some ==> (#[trigger] old(font).sets@[p])->0.wf(),
    ensures
        ok == (old(font).sets@[0] is Some),
        final(font).size == old(font).size,
        final(font).height == old(font).height,
        final(font).sets@.len() == FONT_PAGES,
        forall|p: int|
            0 <= p < FONT_PAGES && final(font).sets@[p] is Some ==> (#[trigger] final(font).sets@[p])->0.wf(),
        forall|p: int| 0 < p < FONT_PAGES ==> #[trigger] final(font).sets@[p] == old(font).sets@[p],
        final(font).sets@[0] is Some == ok,
        ok ==> {
            &&& final(font).sets@[0]->0.image == old(font).sets@[0]->0.image
            &&& final(font).sets@[0]->0.glyphs@.len() == old(font).sets@[0]->0.glyphs@.len()
            &&& forall|k: int|
                0 <= k < old(font).sets@[0]->0.glyphs@.len() ==> #[trigger] final(font).sets@[0]->0.glyphs@[k] == (if k == TAB_CODEPOINT || k == NEWLINE_CODEPOINT {
                    GlyphMetric {
                        x1: old(font).sets@[0]->0.glyphs@[k].x0,
                        ..old(font).sets@[0]->0.glyphs@[k]
                    }
                } else {
                    old(font).sets@[0]->0.glyphs@[k]
                })
        },
{
    match font.sets[0].as_mut() {
        Some(set) => {
            if set.glyphs.len() == PAGE_GLYPHS {
                let mut t = set.glyphs[TAB_CODEPOINT];
                t.x1 = t.x0;
                set.glyphs[TAB_CODEPOINT] = t;
                let mut nl = set.glyphs[NEWLINE_CODEPOINT];
                nl.x1 = nl.x0;
                set.glyphs[NEWLINE_CODEPOINT] = nl;
            }
            true
        },
        None => false,
    }
}

/// If the pages of the first `k` codepoints are present and the page of
/// `text[k]` is not, `k` is the first missing position.
proof fn lemma_first_missing_at(font: Font, text: Seq<char>, k: int)
    requires
        0 <= k < text.len(),
        forall|j: int| 0 <= j < k ==> font.has_page(page_of(#[trigger] text[j])),
        !font.has_page(page_of(text[k])),
    ensures
        font.first_missing(text) == k,
        !font.pages_present(text),
    decreases k,
{
    if k == 0 {
    } else {
        lemma_first_missing_at(font, text.drop_first(), k - 1);
    }
}

/// Prefix widths only grow: every advance is non-negative.
pub proof fn lemma_measured_prefix_monotone(font: Font, text: Seq<char>, k: int, n: int)
    requires
        font.wf(),
        font.pages_present(text),
        0 <= k <= n <= text.len(),
    ensures
        font.measured_prefix(text, k) <= font.measured_prefix(text, n),
    decreases n - k,
{
    if k < n {
        assert(font.glyph(text[n - 1]).xadvance >= 0) by {
            assert(font.has_page(page_of(text[n - 1])));
        }
        lemma_measured_prefix_monotone(font, text, k, n - 1);
    }
}

} // verus!
