//! The damage-tracking render cache: records a frame's draw commands, hashes
//! each command's footprint into the damage grid, diffs the grid against the
//! previous frame, merges changed cells into dirty rectangles, and replays
//! the command log once per dirty rectangle onto the owned surface.

use vstd::prelude::*;

verus! {

use crate::cells::{
    fold_cells,
    CellsBuffer,
    CELL_SIZE,
    GRID_CELLS,
    GRID_COLS,
    GRID_ROWS,
    MAX_SCREEN_H,
    MAX_SCREEN_W,
};
use crate::command::{cmd_hash, command_hash, Command, CommandBuffer, FontId, MAX_COMMANDS};
use crate::color::Color;
use crate::compositor::{draw_rect_pixel, text_pixel, Clip, Renderer};
use crate::font::{Font, BakedPage, MeasureError, MAX_METRIC, FONT_PAGES};
use crate::geometry::{Rect, MAX_COORD};
use crate::hash::FNV_SEED;
use crate::image::Image;
use crate::rect_buffer::RectBuffer;

/// The sentinel `invalidate` writes into every cell of the previous grid, so
/// the next diff sees every cell as changed.
pub const INVALID_CELL: u32 = 0xFFFF_FFFF;

/// `id` is the handle of a live font of the table.
pub open spec fn contains_id(fonts: Seq<(FontId, Font)>, id: FontId) -> bool {
    exists|j: int| 0 <= j < fonts.len() && (#[trigger] fonts[j]).0 == id
}

/// The table position of a live font handle.
pub open spec fn idx_of_id(fonts: Seq<(FontId, Font)>, id: FontId) -> int {
    choose|j: int| 0 <= j < fonts.len() && (#[trigger] fonts[j]).0 == id
}

/// The font a live handle refers to.
pub open spec fn font_by_id(fonts: Seq<(FontId, Font)>, id: FontId) -> Font {
    fonts[idx_of_id(fonts, id)].1
}

/// No two table entries share a handle.
pub open spec fn ids_unique(fonts: Seq<(FontId, Font)>) -> bool {
    forall|j1: int, j2: int|
        0 <= j1 < j2 < fonts.len() ==> (#[trigger] fonts[j1]).0 != (#[trigger] fonts[j2]).0
}

/// Command `c` is a release of font `id`.
pub open spec fn frees_font(c: Command, id: FontId) -> bool {
    c matches Command::FreeFont { font } && font == id
}

/// Some command of the log releases font `id`.
pub open spec fn freed_in(cmds: Seq<Command>, id: FontId) -> bool {
    exists|k: int| 0 <= k < cmds.len() && frees_font(#[trigger] cmds[k], id)
}

/// What every recorded command guarantees: rectangles are well-formed, a
/// recorded clip is already intersected with the screen, and a text run
/// references a live font whose glyph pages for that text are installed,
/// with the rectangle width equal to the measured text width.
pub open spec fn cmd_wf_for(fonts: Seq<(FontId, Font)>, screen: Rect, c: Command) -> bool {
    match c {
        Command::SetClip { rect } => {
            &&& rect.wf()
            &&& rect.width >= 0
            &&& rect.height >= 0
            &&& rect.contained_in(screen)
        },
        Command::DrawRect { rect, .. } => rect.wf(),
        Command::DrawText { font, text, rect, .. } => {
            &&& rect.wf()
            &&& rect.width >= 0
            &&& rect.height >= 0
            &&& contains_id(fonts, font)
            &&& font_by_id(fonts, font).pages_present(text@)
            &&& rect.width == font_by_id(fonts, font).measured(text@)
        },
        Command::FreeFont { font } => contains_id(fonts, font),
    }
}

impl RenCache {
    /// What every recorded command of this cache guarantees.
    pub open spec fn cmd_wf(self, c: Command) -> bool {
        cmd_wf_for(self.fonts@, self.screen, c)
    }

    /// The cache invariant, kept by every operation.
    pub open spec fn wf(self) -> bool {
        &&& self.surface.wf()
        &&& self.cells.wf()
        &&& self.rects.wf()
        &&& self.screen.x == 0
        &&& self.screen.y == 0
        &&& 1 <= self.screen.width <= MAX_SCREEN_W
        &&& 1 <= self.screen.height <= MAX_SCREEN_H
        &&& self.surface.width == self.screen.width
        &&& self.surface.height == self.screen.height
        &&& ids_unique(self.fonts@)
        &&& forall|j: int|
            0 <= j < self.fonts@.len() ==> (#[trigger] self.fonts@[j]).1.wf() && self.fonts@[j].0
                < self.next_font_id
        &&& forall|k: int|
            0 <= k < self.commands.commands@.len() ==> self.cmd_wf(
                #[trigger] self.commands.commands@[k],
            )
        &&& forall|i: int| 0 <= i < GRID_CELLS ==> self.cells.current()[i] == FNV_SEED
    }

    /// A live handle.
    pub open spec fn is_live(self, id: FontId) -> bool {
        contains_id(self.fonts@, id)
    }

    /// The font behind a live handle.
    pub open spec fn font(self, id: FontId) -> Font {
        font_by_id(self.fonts@, id)
    }

    /// The recorded command log.
    pub open spec fn log(self) -> Seq<Command> {
        self.commands.commands@
    }

    /// A cache for a screen of the given size. The previous grid starts
    /// invalidated, so the first frame reports the whole screen dirty.
    pub fn init(width: i32, height: i32) -> (c: RenCache)
        requires
            1 <= width <= MAX_SCREEN_W,
            1 <= height <= MAX_SCREEN_H,
        ensures
            c.wf(),
            c.screen == (Rect { x: 0, y: 0, width, height }),
            c.log() =~= Seq::<Command>::empty(),
            c.fonts@ =~= Seq::<(FontId, Font)>::empty(),
            forall|i: int| 0 <= i < GRID_CELLS ==> c.cells.prev()[i] == INVALID_CELL,
            !c.debug,
            !c.overflowed,
    {
        let mut cells = CellsBuffer::new();
        cells.invalidate();
        RenCache {
            renderer: Renderer::init(width, height),
            surface: Image::new(width, height),
            cells,
            commands: CommandBuffer::new(),
            rects: RectBuffer::new(),
            screen: Rect { x: 0, y: 0, width, height },
            fonts: Vec::new(),
            next_font_id: 1,
            debug: false,
            debug_rng: FNV_SEED,
            overflowed: false,
        }
    }

    /// Switches the visual damage-debugging overlay on or off.
    pub fn show_debug(&mut self, enable: bool)
        requires
            old(self).wf(),
        ensures
            final(self).wf(),
            *final(self) == (RenCache { debug: enable, ..*old(self) }),
    {
        self.debug = enable;
    }

    /// Forces every cell to be considered changed at the next frame's diff.
    pub fn invalidate(&mut self)
        requires
            old(self).wf(),
        ensures
            final(self).wf(),
            forall|i: int| 0 <= i < GRID_CELLS ==> final(self).cells.prev()[i] == INVALID_CELL,
            final(self).cells.current() == old(self).cells.current(),
            final(self).log() == old(self).log(),
            final(self).fonts@ == old(self).fonts@,
            final(self).screen == old(self).screen,
            final(self).surface == old(self).surface,
    {
        self.cells.invalidate();
    }

    /// Tracks the surface size at the start of a frame: when it changed, the
    /// screen rectangle and the surface buffer are resized and the damage
    /// grid is invalidated, so the next diff repaints everything.
    pub fn begin_frame(&mut self, width: i32, height: i32)
        requires
            old(self).wf(),
            1 <= width <= MAX_SCREEN_W,
            1 <= height <= MAX_SCREEN_H,
        ensures
            final(self).wf(),
            final(self).screen == (Rect { x: 0, y: 0, width, height }),
            final(self).fonts@ == old(self).fonts@,
            old(self).screen.width == width && old(self).screen.height == height ==> *final(self)
                == *old(self),
            old(self).screen.width != width || old(self).screen.height != height ==> {
                &&& final(self).log() =~= Seq::<Command>::empty()
                &&& forall|i: int| 0 <= i < GRID_CELLS ==> final(self).cells.prev()[i]
                    == INVALID_CELL
            },
    {
        if self.screen.width != width || self.screen.height != height {
            self.screen = Rect { x: 0, y: 0, width, height };
            self.surface = Image::new(width, height);
            self.commands.clear();
            self.cells.invalidate();
            proof {
                assert forall|k: int| 0 <= k < self.commands.commands@.len() implies self.cmd_wf(
                    #[trigger] self.commands.commands@[k],
                ) by {}
            }
        }
    }

    /// Records a clip command: the rectangle is intersected with the screen
    /// bounds before it enters the log, so recorded clip state is already
    /// screen-clamped. Dropped (with the overflow flag set) when the log is
    /// full.
    pub fn set_clip_rect(&mut self, rect: Rect)
        requires
            old(self).wf(),
            rect.wf(),
        ensures
            final(self).wf(),
            old(self).log().len() < MAX_COMMANDS ==> final(self).log() == old(self).log().push(
                Command::SetClip { rect: rect.spec_intersection(old(self).screen) },
            ) && final(self).overflowed == old(self).overflowed,
            old(self).log().len() >= MAX_COMMANDS ==> final(self).log() == old(self).log()
                && final(self).overflowed,
            final(self).fonts@ == old(self).fonts@,
            final(self).screen == old(self).screen,
            final(self).cells == old(self).cells,
            final(self).surface == old(self).surface,
    {
        let clipped = rect.intersection(self.screen);
        let recorded = self.commands.push(Command::SetClip { rect: clipped });
        if !recorded {
            self.overflowed = true;
        }
    }

    /// Records a rectangle fill, unless the rectangle does not even touch the
    /// screen (early culling). Dropped (with the overflow flag set) when the
    /// log is full.
    pub fn draw_rect(&mut self, rect: Rect, color: Color)
        requires
            old(self).wf(),
            rect.wf(),
        ensures
            final(self).wf(),
            !old(self).screen.spec_has_overlap(rect) ==> final(self).log() == old(self).log()
                && final(self).overflowed == old(self).overflowed,
            old(self).screen.spec_has_overlap(rect) && old(self).log().len() < MAX_COMMANDS
                ==> final(self).log() == old(self).log().push(Command::DrawRect { rect, color })
                && final(self).overflowed == old(self).overflowed,
            old(self).screen.spec_has_overlap(rect) && old(self).log().len() >= MAX_COMMANDS
                ==> final(self).log() == old(self).log() && final(self).overflowed,
            final(self).fonts@ == old(self).fonts@,
            final(self).screen == old(self).screen,
            final(self).cells == old(self).cells,
            final(self).surface == old(self).surface,
    {
        if !self.screen.has_overlap(rect) {
            return ;
        }
        let recorded = self.commands.push(Command::DrawRect { rect, color });
        if !recorded {
            self.overflowed = true;
        }
    }

    /// Records a release of a font: the font stays live for every draw
    /// command of this frame and is dropped only after the frame's last
    /// dirty-rectangle pass has been replayed. When the log is full the
    /// command is dropped and the font simply stays live.
    pub fn free_font(&mut self, font: FontId)
        requires
            old(self).wf(),
            old(self).is_live(font),
        ensures
            final(self).wf(),
            old(self).log().len() < MAX_COMMANDS ==> final(self).log() == old(self).log().push(
                Command::FreeFont { font },
            ) && final(self).overflowed == old(self).overflowed,
            old(self).log().len() >= MAX_COMMANDS ==> final(self).log() == old(self).log()
                && final(self).overflowed,
            final(self).fonts@ == old(self).fonts@,
            final(self).screen == old(self).screen,
            final(self).cells == old(self).cells,
            final(self).surface == old(self).surface,
    {
        let recorded = self.commands.push(Command::FreeFont { font });
        if !recorded {
            self.overflowed = true;
        }
    }

    /// Registers a font with the cache and hands back its handle, the
    /// identity under which text runs with this font are hashed. Handles are
    /// never reused.
    pub fn add_font(&mut self, font: Font) -> (id: FontId)
        requires
            old(self).wf(),
            font.wf(),
            old(self).next_font_id < u64::MAX,
        ensures
            final(self).wf(),
            id == old(self).next_font_id,
            final(self).is_live(id),
            final(self).font(id) == font,
            !old(self).is_live(id),
            forall|other: FontId|
                old(self).is_live(other) ==> final(self).is_live(other) && final(self).font(other)
                    == old(self).font(other),
            final(self).log() == old(self).log(),
            final(self).screen == old(self).screen,
            final(self).cells == old(self).cells,
            final(self).surface == old(self).surface,
    {
        let id = self.next_font_id;
        self.next_font_id = self.next_font_id + 1;
        self.fonts.push((id, font));
        proof {
            let fonts = self.fonts@;
            let n = fonts.len() - 1;
            assert(fonts[n].0 == id);
            assert(contains_id(fonts, id));
            lemma_font_at(fonts, n);
            assert forall|other: FontId| old(self).is_live(other) implies self.is_live(other)
                && self.font(other) == old(self).font(other) by {
                let j = idx_of_id(old(self).fonts@, other);
                assert(fonts[j].0 == other);
                lemma_font_at(fonts, j);
            }
            assert forall|k: int|
                0 <= k < self.commands.commands@.len() implies self.cmd_wf(
                #[trigger] self.commands.commands@[k],
            ) by {
                lemma_cmd_wf_fonts_extended(*old(self), *self, self.commands.commands@[k]);
            }
        }
        id
    }

    /// Looks a live handle up in the font table.
    fn find_font(&self, id: FontId) -> (r: Option<usize>)
        requires
            self.wf(),
        ensures
            r is Some <==> self.is_live(id),
            r matches Some(j) ==> j < self.fonts@.len() && self.fonts@[j as int].0 == id
                && self.fonts@[j as int].1 == self.font(id),
    {
        find_in(&self.fonts, id)
    }

    /// Measures a text with a live font: the sum of its codepoints' glyph
    /// advances, or the first glyph page that must be installed first.
    pub fn measure_width(&self, font: FontId, text: &str) -> (r: Result<i32, MeasureError>)
        requires
            self.wf(),
            self.is_live(font),
        ensures
            !self.font(font).pages_present(text@) ==> r matches Err(MeasureError::MissingPage(_)),
            self.font(font).pages_present(text@) && self.font(font).measured(text@) > MAX_COORD
                ==> r == Result::<i32, MeasureError>::Err(MeasureError::TooWide),
            self.font(font).pages_present(text@) && self.font(font).measured(text@) <= MAX_COORD
                ==> r == Result::<i32, MeasureError>::Ok(self.font(font).measured(text@) as i32),
    {
        let j = match self.find_font(font) {
            Some(j) => j,
            None => {
                proof {
                    assert(false);
                }
                return Err(MeasureError::TooWide);
            },
        };
        self.fonts[j].1.measure_width(text)
    }

    /// The precomputed line height of a live font.
    pub fn font_height(&self, font: FontId) -> (h: i32)
        requires
            self.wf(),
            self.is_live(font),
        ensures
            h == self.font(font).height,
            0 <= h <= MAX_METRIC,
    {
        let j = match self.find_font(font) {
            Some(j) => j,
            None => {
                proof {
                    assert(false);
                }
                return 0;
            },
        };
        self.fonts[j].1.line_height()
    }

    /// Installs a baked glyph page into a live font. Only pages that are
    /// still missing can be installed: a page already built stays as it is,
    /// so the advances of already-recorded text runs cannot change under the
    /// log. Returns false (leaving the font unchanged) when the page data is
    /// rejected.
    pub fn install_page(&mut self, font: FontId, page_idx: usize, data: BakedPage, scaled_ascent:
        i32) -> (ok: bool)
        requires
            old(self).wf(),
            old(self).is_live(font),
            page_idx < FONT_PAGES,
            !old(self).font(font).has_page(page_idx as int),
            -MAX_METRIC <= scaled_ascent <= MAX_METRIC,
        ensures
            final(self).wf(),
            ok == crate::font::valid_page(data, scaled_ascent as int),
            final(self).is_live(font),
            ok ==> final(self).font(font).has_page(page_idx as int),
            forall|p: int|
                0 <= p < FONT_PAGES && p != page_idx ==> final(self).font(font).sets@[p] == old(self).font(font).sets@[p],
            final(self).font(font).height == old(self).font(font).height,
            forall|other: FontId|
                old(self).is_live(other) ==> final(self).is_live(other),
            forall|other: FontId|
                old(self).is_live(other) && other != font ==> final(self).font(other) == old(self).font(other),
            final(self).log() == old(self).log(),
            final(self).screen == old(self).screen,
            final(self).cells == old(self).cells,
            final(self).surface == old(self).surface,
    {
        let j = match self.find_font(font) {
            Some(j) => j,
            None => {
                proof {
                    assert(false);
                }
                return false;
            },
        };
        let ghost old_fonts = self.fonts@;
        let ghost old_font = self.fonts@[j as int].1;
        let entry = &mut self.fonts[j];
        let ok = entry.1.install_page(page_idx, data, scaled_ascent);
        proof {
            let fonts = self.fonts@;
            assert(fonts =~= old_fonts.update(j as int, (font, fonts[j as int].1)));
            lemma_font_at(fonts, j as int);
            assert forall|other: FontId| contains_id(old_fonts, other) implies contains_id(
                fonts,
                other,
            ) by {
                let k = idx_of_id(old_fonts, other);
                assert(fonts[k].0 == other);
            }
            assert forall|other: FontId|
                contains_id(old_fonts, other) && other != font implies font_by_id(fonts, other)
                == font_by_id(old_fonts, other) by {
                let k = idx_of_id(old_fonts, other);
                assert(fonts[k].0 == other);
                lemma_font_at(fonts, k);
                lemma_font_at(old_fonts, k);
            }
            assert forall|k: int|
                0 <= k < self.commands.commands@.len() implies self.cmd_wf(
                #[trigger] self.commands.commands@[k],
            ) by {
                let c = self.commands.commands@[k];
                assert(old(self).cmd_wf(c));
                match c {
                    Command::DrawText { font: cf, text, .. } => {
                        if cf == font {
                            lemma_font_page_extension(old_font, self.fonts@[j as int].1, text@);
                            lemma_font_at(fonts, j as int);
                            lemma_font_at(old_fonts, j as int);
                        } else {
                            let ki = idx_of_id(old_fonts, cf);
                            assert(fonts[ki].0 == cf);
                            lemma_font_at(fonts, ki);
                            lemma_font_at(old_fonts, ki);
                        }
                    },
                    _ => {},
                }
            }
        }
        ok
    }

    /// Overrides the tab glyph's advance of a live font to exactly `n`
    /// pixels. May only be used while no recorded text run references the
    /// font, since it changes what texts with tabs measure.
    pub fn set_tab_width(&mut self, font: FontId, n: i32)
        requires
            old(self).wf(),
            old(self).is_live(font),
            0 <= n <= MAX_METRIC,
            forall|k: int|
                0 <= k < old(self).log().len() ==> !(#[trigger] old(self).log()[k] matches
                    Command::DrawText { font: cf, .. } && cf == font),
        ensures
            final(self).wf(),
            final(self).is_live(font),
            final(self).font(font).sets@[0]->0.glyphs@[crate::font::TAB_CODEPOINT as int].xadvance
                == n,
            forall|other: FontId|
                old(self).is_live(other) ==> final(self).is_live(other),
            forall|other: FontId|
                old(self).is_live(other) && other != font ==> final(self).font(other) == old(self).font(other),
            final(self).log() == old(self).log(),
            final(self).screen == old(self).screen,
            final(self).cells == old(self).cells,
            final(self).surface == old(self).surface,
    {
        let j = match self.find_font(font) {
            Some(j) => j,
            None => {
                proof {
                    assert(false);
                }
                return ;
            },
        };
        let ghost old_fonts = self.fonts@;
        let entry = &mut self.fonts[j];
        entry.1.set_tab_width(n);
        proof {
            let fonts = self.fonts@;
            assert(fonts =~= old_fonts.update(j as int, (font, fonts[j as int].1)));
            lemma_font_at(fonts, j as int);
            assert forall|other: FontId| contains_id(old_fonts, other) implies contains_id(
                fonts,
                other,
            ) by {
                let k = idx_of_id(old_fonts, other);
                assert(fonts[k].0 == other);
            }
            assert forall|other: FontId|
                contains_id(old_fonts, other) && other != font implies font_by_id(fonts, other)
                == font_by_id(old_fonts, other) by {
                let k = idx_of_id(old_fonts, other);
                assert(fonts[k].0 == other);
                lemma_font_at(fonts, k);
                lemma_font_at(old_fonts, k);
            }
            assert forall|k: int|
                0 <= k < self.commands.commands@.len() implies self.cmd_wf(
                #[trigger] self.commands.commands@[k],
            ) by {
                let c = self.commands.commands@[k];
                assert(old(self).cmd_wf(c));
                match c {
                    Command::DrawText { font: cf, .. } => {
                        assert(old(self).log()[k] == c);
                        if cf == font {
                            assert(false);
                        } else {
                            let ki = idx_of_id(old_fonts, cf);
                            assert(fonts[ki].0 == cf);
                            lemma_font_at(fonts, ki);
                            lemma_font_at(old_fonts, ki);
                        }
                    },
                    _ => {},
                }
            }
        }
    }

    /// Records a text run: measures it, culls it when its bounding rectangle
    /// misses the screen, and otherwise appends a command carrying an owned
    /// copy of the text. Returns the caller's next pen position `x` plus the
    /// measured width whether or not anything was recorded, so layout can
    /// continue past the screen edge. Fails when a glyph page is missing or a
    /// coordinate would leave the renderer's range.
    pub fn draw_text(&mut self, font: FontId, text: &str, x: i32, y: i32, color: Color) -> (r:
        Result<i32, MeasureError>)
        requires
            old(self).wf(),
            old(self).is_live(font),
            -MAX_COORD <= x <= MAX_COORD,
            -MAX_COORD <= y <= MAX_COORD,
        ensures
            final(self).wf(),
            !old(self).font(font).pages_present(text@) ==> (r matches Err(
                MeasureError::MissingPage(_),
            )) && final(self).log() == old(self).log() && final(self).overflowed == old(self).overflowed,
            ({
                let f = old(self).font(font);
                let measured = f.measured(text@);
                &&& (f.pages_present(text@) && (measured > MAX_COORD || x + measured > MAX_COORD
                    || y + f.height > MAX_COORD) ==> r == Result::<i32, MeasureError>::Err(
                    MeasureError::TooWide,
                ) && final(self).log() == old(self).log() && final(self).overflowed == old(self).overflowed)
                &&& (f.pages_present(text@) && measured <= MAX_COORD && x + measured <= MAX_COORD
                    && y + f.height <= MAX_COORD ==> {
                    let rect = Rect {
                        x,
                        y,
                        width: measured as i32,
                        height: f.height,
                    };
                    &&& r == Result::<i32, MeasureError>::Ok((x + measured) as i32)
                    &&& (!old(self).screen.spec_has_overlap(rect) ==> final(self).log() == old(self).log()
                        && final(self).overflowed == old(self).overflowed)
                    &&& (old(self).screen.spec_has_overlap(rect) && old(self).log().len()
                        < MAX_COMMANDS ==> final(self).log().len() == old(self).log().len() + 1
                        && (final(self).log().last() matches Command::DrawText {
                        font: cf,
                        text: ct,
                        rect: cr,
                        color: cc,
                    } && cf == font && ct@ == text@ && cr == rect && cc == color) && final(self).log().take(old(self).log().len() as int) == old(self).log()
                        && final(self).overflowed == old(self).overflowed)
                    &&& (old(self).screen.spec_has_overlap(rect) && old(self).log().len()
                        >= MAX_COMMANDS ==> final(self).log() == old(self).log() && final(self).overflowed)
                })
            }),
            final(self).fonts@ == old(self).fonts@,
            final(self).screen == old(self).screen,
            final(self).cells == old(self).cells,
            final(self).surface == old(self).surface,
    {
        let j = match self.find_font(font) {
            Some(j) => j,
            None => {
                proof {
                    assert(false);
                }
                return Err(MeasureError::TooWide);
            },
        };
        let measured = match self.fonts[j].1.measure_width(text) {
            Ok(m) => m,
            Err(e) => {
                return Err(e);
            },
        };
        proof {
            crate::font::lemma_measured_prefix_monotone(
                self.fonts@[j as int].1,
                text@,
                0,
                text@.len() as int,
            );
        }
        let height = self.fonts[j].1.line_height();
        if x > MAX_COORD - measured || y > MAX_COORD - height {
            return Err(MeasureError::TooWide);
        }
        let rect = Rect { x, y, width: measured, height };
        if self.screen.has_overlap(rect) {
            let recorded = self.commands.push(
                Command::DrawText { font, text: text.to_owned(), rect, color },
            );
            if !recorded {
                self.overflowed = true;
            } else {
                proof {
                    assert(self.log().take(old(self).log().len() as int) =~= old(self).log());
                }
            }
        }
        Ok(x + measured)
    }

    /// Ends the frame: hashes the recorded log into the damage grid, diffs it
    /// against the previous frame, merges the changed cells into dirty
    /// rectangles, replays the log once per dirty rectangle onto the surface,
    /// releases the fonts whose release was recorded (only after every
    /// pass), drains the log, swaps the grids and clears the overflow flag
    /// (which reports drops in the log recorded since the previous frame
    /// ended). Returns the dirty rectangles to present: exactly the scaled,
    /// screen-clipped merge of the cells whose accumulated hash changed. The
    /// surface holds exactly the in-order replay of the log, once per dirty
    /// rectangle under that rectangle's clip; no pixel outside the dirty
    /// rectangles changed.
    pub fn end_frame(&mut self) -> (out: Vec<Rect>)
        requires
            old(self).wf(),
        ensures
            final(self).wf(),
            out@ == dirty_rects(
                frame_cells(old(self).log(), old(self).screen),
                old(self).cells.prev(),
                old(self).screen,
            ),
            final(self).cells.prev() == frame_cells(old(self).log(), old(self).screen),
            final(self).log() =~= Seq::<Command>::empty(),
            forall|id: FontId|
                #[trigger] final(self).is_live(id) <==> old(self).is_live(id) && !freed_in(
                    old(self).log(),
                    id,
                ),
            forall|id: FontId|
                #[trigger] final(self).is_live(id) ==> final(self).font(id) == old(self).font(id),
            final(self).screen == old(self).screen,
            final(self).surface.width == old(self).surface.width,
            final(self).surface.height == old(self).surface.height,
            forall|px: int, py: int|
                old(self).surface.in_bounds(px, py) ==> #[trigger] final(self).surface.pixel(
                    px,
                    py,
                ) == rects_pixel(
                    old(self).log(),
                    old(self).fonts@,
                    out@,
                    old(self).debug,
                    old(self).debug_rng,
                    out@.len() as int,
                    old(self).surface.pixel(px, py),
                    px,
                    py,
                ),
            forall|px: int, py: int|
                old(self).surface.in_bounds(px, py) && !crate::rect_buffer::covers(out@, px, py)
                    ==> final(self).surface.pixel(px, py) == old(self).surface.pixel(px, py),
            forall|j: int|
                0 <= j < out@.len() ==> (#[trigger] out@[j]).wf() && out@[j].contained_in(
                    old(self).screen,
                ),
            final(self).debug == old(self).debug,
            final(self).debug_rng == rng_after(
                old(self).debug_rng,
                old(self).debug,
                out@.len() as int,
            ),
            !final(self).overflowed,
    {
        let ghost cmds = old(self).log();
        let ghost screen0 = old(self).screen;
        let ghost prev0 = old(self).cells.prev();
        proof {
            assert(self.cells.current() =~= seed_grid());
            assert forall|k: int| 0 <= k < cmds.len() implies cmd_hash_wf(
                #[trigger] cmds[k],
                screen0,
            ) by {
                assert(self.cmd_wf(cmds[k]));
            }
        }
        hash_pass(&self.commands.commands, &mut self.cells, self.screen);
        proof {
            assert(self.cells.current() == frame_cells(cmds, screen0));
        }
        self.rects.clear();
        diff_pass(&mut self.cells, &mut self.rects, self.screen);
        proof {
            vstd::arithmetic::div_mod::lemma_div_is_ordered(
                screen0.width as int,
                MAX_SCREEN_W as int,
                CELL_SIZE as int,
            );
            vstd::arithmetic::div_mod::lemma_div_is_ordered(
                screen0.height as int,
                MAX_SCREEN_H as int,
                CELL_SIZE as int,
            );
            vstd::arithmetic::div_mod::lemma_div_is_ordered(
                0,
                screen0.width as int,
                CELL_SIZE as int,
            );
            vstd::arithmetic::div_mod::lemma_div_is_ordered(
                0,
                screen0.height as int,
                CELL_SIZE as int,
            );
            vstd::arithmetic::mul::lemma_mul_nonnegative(scan_cols(screen0), scan_rows(screen0));
            lemma_diff_rects_bounds(
                frame_cells(cmds, screen0),
                prev0,
                scan_cols(screen0),
                scan_rows(screen0),
                scan_cols(screen0) * scan_rows(screen0),
            );
        }
        let out = scale_pass(&self.rects, self.screen);
        proof {
            assert(out@ =~= dirty_rects(frame_cells(cmds, screen0), prev0, screen0));
            assert(Rect {
                x: 0,
                y: 0,
                width: self.surface.width,
                height: self.surface.height,
            } == screen0);
        }
        replay(
            &mut self.renderer,
            &mut self.surface,
            &self.fonts,
            &self.commands.commands,
            &out,
            self.debug,
            &mut self.debug_rng,
        );
        drop_freed(&mut self.fonts, &self.commands.commands);
        self.commands.clear();
        self.cells.swap();
        self.cells.reset_current();
        self.overflowed = false;
        proof {
            assert forall|j: int|
                0 <= j < self.fonts@.len() implies (#[trigger] self.fonts@[j]).1.wf()
                && self.fonts@[j].0 < self.next_font_id by {
                assert(entry_from(old(self).fonts@, self.fonts@[j]));
                let k = choose|k: int|
                    0 <= k < old(self).fonts@.len() && old(self).fonts@[k] == self.fonts@[j];
            }
            assert forall|j: int|
                0 <= j < out@.len() implies (#[trigger] out@[j]).wf() && out@[j].contained_in(
                screen0,
            ) by {}
        }
        out
    }
}

/// The damage-tracking render cache. It owns the surface pixel buffer it
/// composites onto, the damage grids, the command log, the dirty-rectangle
/// set and the font table.
pub struct RenCache {
    pub renderer: Renderer,
    pub surface: Image,
    pub cells: CellsBuffer,
    pub commands: CommandBuffer,
    pub rects: RectBuffer,
    pub screen: Rect,
    pub fonts: Vec<(FontId, Font)>,
    pub next_font_id: FontId,
    pub debug: bool,
    pub debug_rng: u32,
    pub overflowed: bool,
}

/// With unique handles, the entry at `j` is the one its handle looks up.
pub proof fn lemma_font_at(fonts: Seq<(FontId, Font)>, j: int)
    requires
        ids_unique(fonts),
        0 <= j < fonts.len(),
    ensures
        contains_id(fonts, fonts[j].0),
        idx_of_id(fonts, fonts[j].0) == j,
        font_by_id(fonts, fonts[j].0) == fonts[j].1,
{
    let id = fonts[j].0;
    assert(contains_id(fonts, id));
    let k = idx_of_id(fonts, id);
    if k != j {
        if k < j {
            assert(fonts[k].0 != fonts[j].0);
        } else {
            assert(fonts[j].0 != fonts[k].0);
        }
    }
}

/// Installing a page a font did not have leaves every measurement of texts
/// whose pages were already present unchanged.
pub proof fn lemma_font_page_extension(f_old: Font, f_new: Font, text: Seq<char>)
    requires
        f_old.sets@.len() == FONT_PAGES,
        f_new.sets@.len() == FONT_PAGES,
        forall|p: int|
            0 <= p < FONT_PAGES && f_old.sets@[p] is Some ==> f_new.sets@[p] == f_old.sets@[p],
        f_old.pages_present(text),
    ensures
        f_new.pages_present(text),
        f_new.measured(text) == f_old.measured(text),
{
    assert forall|i: int| 0 <= i < text.len() implies f_new.has_page(
        crate::font::page_of(#[trigger] text[i]),
    ) by {
        assert(f_old.has_page(crate::font::page_of(text[i])));
    }
    lemma_measured_prefix_extension(f_old, f_new, text, text.len() as int);
}

/// Prefix measurements agree between a font and its page-extension.
proof fn lemma_measured_prefix_extension(f_old: Font, f_new: Font, text: Seq<char>, k: int)
    requires
        f_old.sets@.len() == FONT_PAGES,
        f_new.sets@.len() == FONT_PAGES,
        forall|p: int|
            0 <= p < FONT_PAGES && f_old.sets@[p] is Some ==> f_new.sets@[p] == f_old.sets@[p],
        f_old.pages_present(text),
        k <= text.len(),
    ensures
        f_old.measured_prefix(text, k) == f_new.measured_prefix(text, k),
    decreases k,
{
    if k > 0 {
        lemma_measured_prefix_extension(f_old, f_new, text, k - 1);
        assert(f_old.has_page(crate::font::page_of(text[k - 1])));
    }
}

/// Adding a font leaves the well-formedness of every recorded command intact.
proof fn lemma_cmd_wf_fonts_extended(pre: RenCache, post: RenCache, c: Command)
    requires
        pre.cmd_wf(c),
        post.screen == pre.screen,
        ids_unique(post.fonts@),
        post.fonts@.len() == pre.fonts@.len() + 1,
        forall|j: int| 0 <= j < pre.fonts@.len() ==> post.fonts@[j] == pre.fonts@[j],
    ensures
        post.cmd_wf(c),
{
    match c {
        Command::DrawText { font, .. } => {
            let j = idx_of_id(pre.fonts@, font);
            assert(post.fonts@[j].0 == font);
            lemma_font_at_prefix(pre.fonts@, post.fonts@, j);
        },
        Command::FreeFont { font } => {
            let j = idx_of_id(pre.fonts@, font);
            assert(post.fonts@[j].0 == font);
        },
        _ => {},
    }
}

/// A table extended at the end still resolves old handles to the same fonts.
proof fn lemma_font_at_prefix(pre: Seq<(FontId, Font)>, post: Seq<(FontId, Font)>, j: int)
    requires
        ids_unique(post),
        0 <= j < pre.len(),
        post.len() >= pre.len(),
        forall|k: int| 0 <= k < pre.len() ==> post[k] == pre[k],
    ensures
        contains_id(post, pre[j].0),
        font_by_id(post, pre[j].0) == pre[j].1,
{
    assert(post[j].0 == pre[j].0);
    lemma_font_at(post, j);
}

/// What the hash pass needs of a recorded command: a well-formed footprint,
/// and clip commands already clamped to the screen.
pub open spec fn cmd_hash_wf(c: Command, screen: Rect) -> bool {
    &&& c.rect().wf()
    &&& (c matches Command::SetClip { rect } ==> rect.width >= 0 && rect.height >= 0
        && rect.contained_in(screen))
}

/// The clip in force after the first `k` commands of the log: the full
/// screen initially, replaced by every clip command in program order.
pub open spec fn clip_after(cmds: Seq<Command>, screen: Rect, k: int) -> Rect
    decreases k,
{
    if k <= 0 {
        screen
    } else {
        match cmds[k - 1] {
            Command::SetClip { rect } => rect,
            _ => clip_after(cmds, screen, k - 1),
        }
    }
}

/// The damage grid after hashing the first `k` commands: each command's
/// footprint is its rectangle clipped by the clip in force (a clip command
/// clips itself by its own rectangle); an empty footprint contributes
/// nothing, any other folds the command's hash into every covered cell.
pub open spec fn cells_after(cmds: Seq<Command>, screen: Rect, init: Seq<u32>, k: int) -> Seq<u32>
    decreases k,
{
    if k <= 0 {
        init
    } else {
        let before = cells_after(cmds, screen, init, k - 1);
        let r = cmds[k - 1].rect().spec_intersection(clip_after(cmds, screen, k));
        if r.is_empty() {
            before
        } else {
            fold_cells(before, r, cmd_hash(cmds[k - 1]))
        }
    }
}

/// The grid every frame starts from: the hash seed in every cell.
pub open spec fn seed_grid() -> Seq<u32> {
    Seq::new(GRID_CELLS as nat, |i: int| FNV_SEED)
}

/// The damage grid a frame's command log produces.
pub open spec fn frame_cells(cmds: Seq<Command>, screen: Rect) -> Seq<u32> {
    cells_after(cmds, screen, seed_grid(), cmds.len() as int)
}

/// Grid columns the diff scans for this screen.
pub open spec fn scan_cols(screen: Rect) -> int {
    screen.width as int / (CELL_SIZE as int) + 1
}

/// Grid rows the diff scans for this screen.
pub open spec fn scan_rows(screen: Rect) -> int {
    screen.height as int / (CELL_SIZE as int) + 1
}

/// The merged cell-unit dirty rectangles after diffing the first `t` cells
/// in row-major scan order: every cell whose accumulator differs from the
/// previous frame pushes a 1x1 candidate, coalesced by `spec_push`.
pub open spec fn diff_rects(cur: Seq<u32>, prev: Seq<u32>, cols: int, t: int) -> Seq<Rect>
    decreases t,
{
    if t <= 0 {
        Seq::empty()
    } else {
        let rs = diff_rects(cur, prev, cols, t - 1);
        let cx = (t - 1) % cols;
        let cy = (t - 1) / cols;
        let idx = cy * (GRID_COLS as int) + cx;
        if cur[idx] != prev[idx] {
            crate::rect_buffer::spec_push(
                rs,
                Rect { x: cx as i32, y: cy as i32, width: 1, height: 1 },
            )
        } else {
            rs
        }
    }
}

/// A cell-unit rectangle scaled to pixels and re-clipped against the screen.
pub open spec fn scale_rect(r: Rect, screen: Rect) -> Rect {
    (Rect {
        x: (r.x * CELL_SIZE) as i32,
        y: (r.y * CELL_SIZE) as i32,
        width: (r.width * CELL_SIZE) as i32,
        height: (r.height * CELL_SIZE) as i32,
    }).spec_intersection(screen)
}

/// The dirty rectangles a frame reports: the diff of the frame's grid
/// against the previous frame's, merged, scaled to pixels and clipped to the
/// screen.
pub open spec fn dirty_rects(cur: Seq<u32>, prev: Seq<u32>, screen: Rect) -> Seq<Rect> {
    diff_rects(cur, prev, scan_cols(screen), scan_cols(screen) * scan_rows(screen)).map_values(
        |r: Rect| scale_rect(r, screen),
    )
}

/// The clip edges a replay pass derives from a rectangle.
pub open spec fn clip_of_rect(r: Rect) -> Clip {
    Clip { left: r.x, top: r.y, right: (r.x + r.width) as i32, bottom: (r.y + r.height) as i32 }
}

/// The replay clip after one command: a clip command applies its rectangle
/// intersected with the dirty rectangle being painted, any other command
/// leaves the clip alone.
pub open spec fn replay_step_clip(clip: Clip, c: Command, r1: Rect) -> Clip {
    match c {
        Command::SetClip { rect } => clip_of_rect(rect.spec_intersection(r1)),
        _ => clip,
    }
}

/// The replay clip in force after the first `k` commands of the pass for
/// dirty rectangle `r1`; the pass starts clipped to `r1` itself.
pub open spec fn replay_clip(cmds: Seq<Command>, r1: Rect, k: int) -> Clip
    decreases k,
{
    if k <= 0 {
        clip_of_rect(r1)
    } else {
        replay_step_clip(replay_clip(cmds, r1, k - 1), cmds[k - 1], r1)
    }
}

/// One destination pixel after replaying one command under a clip: a fill
/// fills, a text run folds its per-glyph blits, a clip change and a font
/// release paint nothing.
pub open spec fn cmd_pixel(
    c: Command,
    fonts: Seq<(FontId, Font)>,
    clip: Clip,
    dst: Color,
    px: int,
    py: int,
) -> Color {
    match c {
        Command::DrawRect { rect, color } => draw_rect_pixel(dst, rect, color, clip, px, py),
        Command::DrawText { font, text, rect, color } => text_pixel(
            font_by_id(fonts, font),
            text@,
            rect.x as int,
            rect.y as int,
            color,
            clip,
            text@.len() as int,
            dst,
            px,
            py,
        ),
        _ => dst,
    }
}

/// One destination pixel after replaying the first `k` commands of the log
/// for dirty rectangle `r1`, in recording order: later commands overdraw
/// earlier ones exactly as recorded.
pub open spec fn pass_pixel(
    cmds: Seq<Command>,
    fonts: Seq<(FontId, Font)>,
    r1: Rect,
    k: int,
    dst: Color,
    px: int,
    py: int,
) -> Color
    decreases k,
{
    if k <= 0 {
        dst
    } else {
        cmd_pixel(
            cmds[k - 1],
            fonts,
            replay_clip(cmds, r1, k - 1),
            pass_pixel(cmds, fonts, r1, k - 1, dst, px, py),
            px,
            py,
        )
    }
}

/// One step of the generator that picks the debug overlay's colors.
pub open spec fn lcg_next(s: u32) -> u32 {
    ((s as nat * 1103515245 + 12345) % 0x1_0000_0000nat) as u32
}

/// The overlay color one pass paints: three generator steps pick the
/// channels; the alpha is always 50 (translucent).
pub open spec fn debug_color(rng: u32) -> Color {
    let s0 = lcg_next(rng);
    let s1 = lcg_next(s0);
    let s2 = lcg_next(s1);
    Color {
        b: (s0 / 65536 % 256) as u8,
        g: (s1 / 65536 % 256) as u8,
        r: (s2 / 65536 % 256) as u8,
        a: 50,
    }
}

/// The generator state after one pass's overlay.
pub open spec fn debug_rng_next(rng: u32) -> u32 {
    lcg_next(lcg_next(lcg_next(rng)))
}

/// One destination pixel after a full replay pass: every command in order,
/// and, with the debug flag on, one translucent overlay rectangle over the
/// dirty rectangle, drawn under the clip the last clip command left. With
/// the flag off no overlay is painted.
pub open spec fn pass_result(
    cmds: Seq<Command>,
    fonts: Seq<(FontId, Font)>,
    r1: Rect,
    debug: bool,
    rng: u32,
    dst: Color,
    px: int,
    py: int,
) -> Color {
    let base = pass_pixel(cmds, fonts, r1, cmds.len() as int, dst, px, py);
    if debug {
        draw_rect_pixel(
            base,
            r1,
            debug_color(rng),
            replay_clip(cmds, r1, cmds.len() as int),
            px,
            py,
        )
    } else {
        base
    }
}

/// The generator state after `i` passes.
pub open spec fn rng_after(rng: u32, debug: bool, i: int) -> u32
    decreases i,
{
    if i <= 0 || !debug {
        rng
    } else {
        debug_rng_next(rng_after(rng, debug, i - 1))
    }
}

/// One destination pixel after replaying the log once per dirty rectangle,
/// in discovery order.
pub open spec fn rects_pixel(
    cmds: Seq<Command>,
    fonts: Seq<(FontId, Font)>,
    out: Seq<Rect>,
    debug: bool,
    rng: u32,
    i: int,
    dst: Color,
    px: int,
    py: int,
) -> Color
    decreases i,
{
    if i <= 0 {
        dst
    } else {
        pass_result(
            cmds,
            fonts,
            out[i - 1],
            debug,
            rng_after(rng, debug, i - 1),
            rects_pixel(cmds, fonts, out, debug, rng, i - 1, dst, px, py),
            px,
            py,
        )
    }
}

/// One generator step, in 64-bit arithmetic.
fn lcg_step(s: u32) -> (r: u32)
    ensures
        r == lcg_next(s),
{
    proof {
        vstd::arithmetic::mul::lemma_mul_upper_bound(
            s as int,
            u32::MAX as int,
            1103515245,
            1103515245,
        );
        vstd::arithmetic::mul::lemma_mul_nonnegative(s as int, 1103515245);
    }
    let t: u64 = (s as u64) * 1103515245u64 + 12345u64;
    (t % 0x1_0000_0000u64) as u32
}

/// A cell the scan visits lies inside the fixed grid.
pub proof fn lemma_scan_cell_in_grid(cols: int, rows: int, cx: int, cy: int)
    requires
        1 <= cols <= GRID_COLS,
        1 <= rows <= GRID_CELLS as int / GRID_COLS as int,
        0 <= cx < cols,
        0 <= cy < rows,
    ensures
        0 <= cy * (GRID_COLS as int) + cx < GRID_CELLS,
{
    vstd::arithmetic::mul::lemma_mul_inequality(cy, rows - 1, GRID_COLS as int);
    vstd::arithmetic::mul::lemma_mul_nonnegative(cy, GRID_COLS as int);
    assert((rows - 1) * (GRID_COLS as int) + cx < rows * (GRID_COLS as int)) by (nonlinear_arith)
        requires
            cx < GRID_COLS,
    ;
    assert(rows * (GRID_COLS as int) <= GRID_CELLS) by (nonlinear_arith)
        requires
            rows <= GRID_CELLS as int / GRID_COLS as int,
    ;
}

/// Every rectangle the diff produces stays within the scanned cell range and
/// has at least one cell of extent.
pub proof fn lemma_diff_rects_bounds(cur: Seq<u32>, prev: Seq<u32>, cols: int, rows: int, t: int)
    requires
        1 <= cols <= GRID_COLS,
        1 <= rows <= GRID_ROWS,
        0 <= t <= cols * rows,
    ensures
        forall|j: int|
            0 <= j < diff_rects(cur, prev, cols, t).len() ==> {
                let r = #[trigger] diff_rects(cur, prev, cols, t)[j];
                &&& 0 <= r.x
                &&& 0 <= r.y
                &&& r.right() <= cols
                &&& r.bottom() <= rows
                &&& r.width >= 1
                &&& r.height >= 1
            },
    decreases t,
{
    if t > 0 {
        lemma_diff_rects_bounds(cur, prev, cols, rows, t - 1);
        let rs = diff_rects(cur, prev, cols, t - 1);
        let cx = (t - 1) % cols;
        let cy = (t - 1) / cols;
        vstd::arithmetic::div_mod::lemma_mod_bound(t - 1, cols);
        assert(0 <= cy && cy < rows) by {
            vstd::arithmetic::div_mod::lemma_div_is_ordered(0, t - 1, cols);
            assert(cols * rows - 1 == (rows - 1) * cols + (cols - 1)) by (nonlinear_arith);
            vstd::arithmetic::div_mod::lemma_div_is_ordered(t - 1, cols * rows - 1, cols);
            vstd::arithmetic::div_mod::lemma_fundamental_div_mod_converse(
                (rows - 1) * cols + (cols - 1),
                cols,
                rows - 1,
                cols - 1,
            );
        }
        let cell = Rect { x: cx as i32, y: cy as i32, width: 1, height: 1 };
        let idx = cy * (GRID_COLS as int) + cx;
        if cur[idx] != prev[idx] {
            crate::rect_buffer::lemma_last_overlap_bounds(rs, cell);
            let k = crate::rect_buffer::last_overlap_idx(rs, cell);
            let out = diff_rects(cur, prev, cols, t);
            assert(out == crate::rect_buffer::spec_push(rs, cell));
            assert forall|j: int|
                0 <= j < out.len() implies 0 <= (#[trigger] out[j]).x && 0 <= out[j].y
                && out[j].right() <= cols && out[j].bottom() <= rows && out[j].width >= 1
                && out[j].height >= 1 by {
                if k >= 0 {
                    if j == k {
                        let rk = diff_rects(cur, prev, cols, t - 1)[k];
                        assert(0 <= rk.x && 0 <= rk.y && rk.right() <= cols && rk.bottom() <= rows
                            && rk.width >= 1 && rk.height >= 1);
                        assert(out[j] == rk.spec_union(cell));
                        let x1v = vstd::math::min(rk.x as int, cell.x as int);
                        let x2v = vstd::math::max(rk.right(), cell.right());
                        let y1v = vstd::math::min(rk.y as int, cell.y as int);
                        let y2v = vstd::math::max(rk.bottom(), cell.bottom());
                        assert(0 <= x1v <= 80 && 0 <= x2v <= 80);
                        assert(0 <= y1v <= rows && 0 <= y2v <= rows);
                        assert(out[j].x == x1v && out[j].width == x2v - x1v);
                        assert(out[j].y == y1v && out[j].height == y2v - y1v);
                        assert(out[j].right() == x2v);
                        assert(out[j].bottom() == y2v);
                    } else {
                        assert(out[j] == diff_rects(cur, prev, cols, t - 1)[j]);
                    }
                } else {
                    if j == rs.len() {
                        assert(out[j] == cell);
                    } else {
                        assert(out[j] == diff_rects(cur, prev, cols, t - 1)[j]);
                    }
                }
            }
        }
    }
}

/// Runs the hash pass: walks the log in order, tracking the recorded clip
/// state, and folds each command's hash into every grid cell its clipped
/// footprint overlaps.
fn hash_pass(commands: &Vec<Command>, cells: &mut CellsBuffer, screen: Rect)
    requires
        old(cells).wf(),
        screen.x == 0,
        screen.y == 0,
        1 <= screen.width <= MAX_SCREEN_W,
        1 <= screen.height <= MAX_SCREEN_H,
        forall|k: int|
            0 <= k < commands@.len() ==> cmd_hash_wf(#[trigger] commands@[k], screen),
    ensures
        final(cells).wf(),
        final(cells).current() == cells_after(
            commands@,
            screen,
            old(cells).current(),
            commands@.len() as int,
        ),
        final(cells).prev() == old(cells).prev(),
        final(cells).a_current == old(cells).a_current,
{
    let ghost init = old(cells).current();
    let n = commands.len();
    let mut cr = screen;
    let mut k: usize = 0;
    while k < n
        invariant
            cells.wf(),
            n == commands@.len(),
            k <= n,
            screen.x == 0,
            screen.y == 0,
            1 <= screen.width <= MAX_SCREEN_W,
            1 <= screen.height <= MAX_SCREEN_H,
            forall|j: int| 0 <= j < commands@.len() ==> cmd_hash_wf(#[trigger] commands@[j], screen),
            cr == clip_after(commands@, screen, k as int),
            cr.wf(),
            cr.width >= 0,
            cr.height >= 0,
            cr.contained_in(screen),
            cells.current() == cells_after(commands@, screen, init, k as int),
            cells.prev() == old(cells).prev(),
            cells.a_current == old(cells).a_current,
        decreases n - k,
    {
        let c = &commands[k];
        let crect: Rect = match c {
            Command::SetClip { rect } => {
                cr = *rect;
                *rect
            },
            Command::DrawRect { rect, .. } => *rect,
            Command::DrawText { rect, .. } => *rect,
            Command::FreeFont { .. } => Rect { x: 0, y: 0, width: 0, height: 0 },
        };
        proof {
            assert(cr == clip_after(commands@, screen, k + 1));
            assert(crect == commands@[k as int].rect());
        }
        let r = crect.intersection(cr);
        if r.width != 0 && r.height != 0 {
            proof {
                assert(!cr.is_empty());
                assert(r.x >= cr.x >= 0);
                assert(r.right() <= cr.right() <= screen.width);
                assert(r.y >= cr.y >= 0);
                assert(r.bottom() <= cr.bottom() <= screen.height);
            }
            let h = command_hash(c);
            cells.update_cells(r, h);
        }
        k = k + 1;
    }
}

/// Runs the diff pass: compares every scanned cell of the current grid to
/// the previous grid, pushes a 1x1 cell-unit candidate for every changed
/// cell (merged on overlap), and resets every scanned previous cell to the
/// hash seed.
fn diff_pass(cells: &mut CellsBuffer, rects: &mut RectBuffer, screen: Rect)
    requires
        old(cells).wf(),
        old(rects).rects@.len() == 0,
        old(rects).wf(),
        screen.x == 0,
        screen.y == 0,
        1 <= screen.width <= MAX_SCREEN_W,
        1 <= screen.height <= MAX_SCREEN_H,
    ensures
        final(cells).wf(),
        final(rects).wf(),
        final(rects).rects@ == diff_rects(
            old(cells).current(),
            old(cells).prev(),
            scan_cols(screen),
            scan_cols(screen) * scan_rows(screen),
        ),
        final(cells).current() == old(cells).current(),
        final(cells).a_current == old(cells).a_current,
        forall|i: int|
            0 <= i < GRID_CELLS ==> final(cells).prev()[i] == (if i % (GRID_COLS as int)
                < scan_cols(screen) && i / (GRID_COLS as int) < scan_rows(screen) {
                FNV_SEED
            } else {
                old(cells).prev()[i]
            }),
{
    let ghost cur0 = old(cells).current();
    let ghost prev0 = old(cells).prev();
    let cols = screen.width / CELL_SIZE + 1;
    let rows = screen.height / CELL_SIZE + 1;
    proof {
        vstd::arithmetic::div_mod::lemma_div_is_ordered(
            screen.width as int,
            MAX_SCREEN_W as int,
            CELL_SIZE as int,
        );
        vstd::arithmetic::div_mod::lemma_div_is_ordered(
            screen.height as int,
            MAX_SCREEN_H as int,
            CELL_SIZE as int,
        );
        vstd::arithmetic::div_mod::lemma_div_is_ordered(0, screen.width as int, CELL_SIZE as int);
        vstd::arithmetic::div_mod::lemma_div_is_ordered(0, screen.height as int, CELL_SIZE as int);
    }
    let mut cy: i32 = 0;
    while cy < rows
        invariant
            cells.wf(),
            rects.wf(),
            0 <= cy <= rows,
            cols == scan_cols(screen),
            rows == scan_rows(screen),
            1 <= cols <= GRID_COLS,
            1 <= rows <= 50,
            cur0 == old(cells).current(),
            prev0 == old(cells).prev(),
            cells.current() == cur0,
            cells.a_current == old(cells).a_current,
            rects.rects@ == diff_rects(cur0, prev0, cols as int, cy as int * cols as int),
            forall|i: int|
                0 <= i < GRID_CELLS ==> cells.prev()[i] == (if i % (GRID_COLS as int) < cols
                    && i / (GRID_COLS as int) < cy {
                    FNV_SEED
                } else {
                    prev0[i]
                }),
        decreases rows - cy,
    {
        let mut cx: i32 = 0;
        while cx < cols
            invariant
                cells.wf(),
                rects.wf(),
                0 <= cy < rows,
                0 <= cx <= cols,
                cols == scan_cols(screen),
                rows == scan_rows(screen),
                1 <= cols <= GRID_COLS,
                1 <= rows <= 50,
                cur0 == old(cells).current(),
                prev0 == old(cells).prev(),
                cells.current() == cur0,
                cells.a_current == old(cells).a_current,
                rects.rects@ == diff_rects(
                    cur0,
                    prev0,
                    cols as int,
                    cy as int * cols as int + cx as int,
                ),
                forall|i: int|
                    0 <= i < GRID_CELLS ==> cells.prev()[i] == (if i % (GRID_COLS as int) < cols
                        && (i / (GRID_COLS as int) < cy || (i / (GRID_COLS as int) == cy && i % (
                    GRID_COLS as int) < cx)) {
                        FNV_SEED
                    } else {
                        prev0[i]
                    }),
            decreases cols - cx,
        {
            proof {
                lemma_scan_cell_in_grid(cols as int, rows as int, cx as int, cy as int);
                crate::cells::lemma_cell_idx(cx as int, cy as int);
                crate::image::lemma_row_major(cols as int, cx as int, cy as int);
            }
            let idx = (cy * GRID_COLS + cx) as usize;
            let cur_v = cells.get_current(idx);
            let prev_v = cells.get_prev(idx);
            if cur_v != prev_v {
                rects.push_rect(Rect { x: cx, y: cy, width: 1, height: 1 });
            }
            cells.set_prev(idx, FNV_SEED);
            cx = cx + 1;
        }
        proof {
            assert((cy as int + 1) * cols as int == cy as int * cols as int + cols as int)
                by (nonlinear_arith);
        }
        cy = cy + 1;
    }
    proof {
        assert(rows as int * cols as int == cols as int * rows as int) by (nonlinear_arith);
        assert(cy as int * cols as int == scan_cols(screen) * scan_rows(screen));
    }
}

/// Scales the cell-unit dirty rectangles to pixels and clips each against
/// the screen. The results are the frame's dirty rectangles: each lies on
/// the screen.
fn scale_pass(rects: &RectBuffer, screen: Rect) -> (out: Vec<Rect>)
    requires
        screen.x == 0,
        screen.y == 0,
        1 <= screen.width <= MAX_SCREEN_W,
        1 <= screen.height <= MAX_SCREEN_H,
        forall|j: int|
            0 <= j < rects.rects@.len() ==> {
                let r = #[trigger] rects.rects@[j];
                &&& 0 <= r.x
                &&& 0 <= r.y
                &&& r.right() <= scan_cols(screen)
                &&& r.bottom() <= scan_rows(screen)
                &&& r.width >= 1
                &&& r.height >= 1
            },
    ensures
        out@ == rects.rects@.map_values(|r: Rect| scale_rect(r, screen)),
        forall|j: int|
            0 <= j < out@.len() ==> {
                let r = #[trigger] out@[j];
                &&& r.wf()
                &&& r.width >= 0
                &&& r.height >= 0
                &&& 0 <= r.x
                &&& 0 <= r.y
                &&& r.right() <= screen.width
                &&& r.bottom() <= screen.height
            },
{
    let n = rects.len();
    let mut out: Vec<Rect> = Vec::new();
    let mut j: usize = 0;
    while j < n
        invariant
            n == rects.rects@.len(),
            j <= n,
            screen.x == 0,
            screen.y == 0,
            1 <= screen.width <= MAX_SCREEN_W,
            1 <= screen.height <= MAX_SCREEN_H,
            forall|i: int|
                0 <= i < rects.rects@.len() ==> {
                    let r = #[trigger] rects.rects@[i];
                    &&& 0 <= r.x
                    &&& 0 <= r.y
                    &&& r.right() <= scan_cols(screen)
                    &&& r.bottom() <= scan_rows(screen)
                    &&& r.width >= 1
                    &&& r.height >= 1
                },
            out@.len() == j,
            forall|i: int|
                0 <= i < j ==> #[trigger] out@[i] == scale_rect(rects.rects@[i], screen),
            forall|i: int|
                0 <= i < j ==> {
                    let r = #[trigger] out@[i];
                    &&& r.wf()
                    &&& r.width >= 0
                    &&& r.height >= 0
                    &&& 0 <= r.x
                    &&& 0 <= r.y
                    &&& r.right() <= screen.width
                    &&& r.bottom() <= screen.height
                },
        decreases n - j,
    {
        let r = rects.get(j);
        proof {
            vstd::arithmetic::div_mod::lemma_fundamental_div_mod(
                screen.width as int,
                CELL_SIZE as int,
            );
            vstd::arithmetic::div_mod::lemma_mod_bound(screen.width as int, CELL_SIZE as int);
            vstd::arithmetic::div_mod::lemma_fundamental_div_mod(
                screen.height as int,
                CELL_SIZE as int,
            );
            vstd::arithmetic::div_mod::lemma_mod_bound(screen.height as int, CELL_SIZE as int);
        }
        let scaled = Rect {
            x: r.x * CELL_SIZE,
            y: r.y * CELL_SIZE,
            width: r.width * CELL_SIZE,
            height: r.height * CELL_SIZE,
        };
        let clipped = scaled.intersection(screen);
        out.push(clipped);
        j = j + 1;
    }
    proof {
        assert(out@ =~= rects.rects@.map_values(|r: Rect| scale_rect(r, screen)));
    }
    out
}

/// Finds the table position of a live font handle.
fn find_in(fonts: &Vec<(FontId, Font)>, id: FontId) -> (r: Option<usize>)
    requires
        ids_unique(fonts@),
    ensures
        r is Some <==> contains_id(fonts@, id),
        r matches Some(j) ==> j < fonts@.len() && fonts@[j as int].0 == id && fonts@[j as int].1
            == font_by_id(fonts@, id),
{
    let n = fonts.len();
    let mut j: usize = 0;
    while j < n
        invariant
            ids_unique(fonts@),
            n == fonts@.len(),
            j <= n,
            forall|k: int| 0 <= k < j ==> (#[trigger] fonts@[k]).0 != id,
        decreases n - j,
    {
        if fonts[j].0 == id {
            proof {
                lemma_font_at(fonts@, j as int);
            }
            return Some(j);
        }
        j = j + 1;
    }
    None
}

/// Replays the command log once per dirty rectangle: the compositor's clip
/// starts at the dirty rectangle, clip commands intersect their rectangle
/// with it, fills and text runs execute against the compositor, and releases
/// are skipped (they run only after every pass). With the debug overlay on,
/// each pass ends by blending a translucent arbitrary-colored rectangle over
/// the dirty rectangle. No pixel outside the dirty rectangles changes.
#[verifier::rlimit(100)]
/// Replays one command against the compositor during the pass for dirty
/// rectangle `r1`: a clip command intersects its rectangle with `r1` and
/// applies it, fills and text runs execute directly, a release does nothing
/// yet. Nothing outside `r1` changes.
fn replay_cmd(
    renderer: &mut Renderer,
    surface: &mut Image,
    fonts: &Vec<(FontId, Font)>,
    c: &Command,
    r1: Rect,
)
    requires
        old(surface).wf(),
        ids_unique(fonts@),
        forall|j: int| 0 <= j < fonts@.len() ==> (#[trigger] fonts@[j]).1.wf(),
        cmd_wf_for(
            fonts@,
            Rect { x: 0, y: 0, width: old(surface).width, height: old(surface).height },
            *c,
        ),
        r1.wf(),
        r1.width >= 0,
        r1.height >= 0,
        0 <= r1.x,
        0 <= r1.y,
        r1.right() <= old(surface).width,
        r1.bottom() <= old(surface).height,
        old(renderer).clip.valid_for(*old(surface)),
        forall|px: int, py: int| old(renderer).clip.contains(px, py) ==> r1.contains(px, py),
    ensures
        final(surface).wf(),
        final(surface).width == old(surface).width,
        final(surface).height == old(surface).height,
        final(renderer).clip.valid_for(*final(surface)),
        final(renderer).clip == replay_step_clip(old(renderer).clip, *c, r1),
        forall|px: int, py: int| final(renderer).clip.contains(px, py) ==> r1.contains(px, py),
        forall|px: int, py: int|
            old(surface).in_bounds(px, py) ==> #[trigger] final(surface).pixel(px, py)
                == cmd_pixel(*c, fonts@, old(renderer).clip, old(surface).pixel(px, py), px, py),
        forall|px: int, py: int|
            old(surface).in_bounds(px, py) && !r1.contains(px, py) ==> final(surface).pixel(px, py)
                == old(surface).pixel(px, py),
{
    match c {
        Command::SetClip { rect } => {
            let c2 = rect.intersection(r1);
            renderer.set_clip_rect(c2);
            proof {
                assert forall|px: int, py: int|
                    renderer.clip.contains(px, py) implies r1.contains(px, py) by {
                    crate::geometry::lemma_intersection_contains(*rect, r1, px, py);
                }
                assert(renderer.clip.valid_for(*surface));
            }
        },
        Command::DrawRect { rect, color } => {
            let ghost pre = *surface;
            renderer.draw_rect(surface, *rect, *color);
            proof {
                assert(pre == *old(surface));
                assert forall|px: int, py: int|
                    old(surface).in_bounds(px, py) && !r1.contains(px, py) implies surface.pixel(
                    px,
                    py,
                ) == old(surface).pixel(px, py) by {
                    assert(!renderer.clip.contains(px, py));
                    assert(surface.pixel(px, py) == (if color.a != 0 && rect.contains(px, py)
                        && renderer.clip.contains(px, py) {
                        crate::compositor::rect_pixel(pre.pixel(px, py), *color)
                    } else {
                        pre.pixel(px, py)
                    }));
                }
            }
        },
        Command::DrawText { font, text, rect, color } => {
            let j = match find_in(fonts, *font) {
                Some(j) => j,
                None => {
                    proof {
                        assert(false);
                    }
                    return ;
                },
            };
            renderer.draw_text(surface, &fonts[j].1, text.as_str(), rect.x, rect.y, *color);
            proof {
                assert(fonts@[j as int].1 == font_by_id(fonts@, *font));
                assert forall|px: int, py: int|
                    old(surface).in_bounds(px, py) && !r1.contains(px, py) implies surface.pixel(
                    px,
                    py,
                ) == old(surface).pixel(px, py) by {
                    if renderer.clip.contains(px, py) {
                        assert(r1.contains(px, py));
                    }
                }
            }
        },
        Command::FreeFont { .. } => {
        },
    }
}

/// Replays the whole command log for one dirty rectangle: the clip starts at
/// the dirty rectangle and every draw is confined to it. With the debug
/// overlay on, the pass ends by blending a translucent arbitrary-colored
/// rectangle over the dirty rectangle.
fn replay_pass(
    renderer: &mut Renderer,
    surface: &mut Image,
    fonts: &Vec<(FontId, Font)>,
    commands: &Vec<Command>,
    r1: Rect,
    debug: bool,
    debug_rng: &mut u32,
)
    requires
        old(surface).wf(),
        ids_unique(fonts@),
        forall|j: int| 0 <= j < fonts@.len() ==> (#[trigger] fonts@[j]).1.wf(),
        forall|k: int|
            0 <= k < commands@.len() ==> cmd_wf_for(
                fonts@,
                Rect { x: 0, y: 0, width: old(surface).width, height: old(surface).height },
                #[trigger] commands@[k],
            ),
        r1.wf(),
        r1.width >= 0,
        r1.height >= 0,
        0 <= r1.x,
        0 <= r1.y,
        r1.right() <= old(surface).width,
        r1.bottom() <= old(surface).height,
    ensures
        final(surface).wf(),
        final(surface).width == old(surface).width,
        final(surface).height == old(surface).height,
        forall|px: int, py: int|
            old(surface).in_bounds(px, py) ==> #[trigger] final(surface).pixel(px, py)
                == pass_result(
                commands@,
                fonts@,
                r1,
                debug,
                *old(debug_rng),
                old(surface).pixel(px, py),
                px,
                py,
            ),
        *final(debug_rng) == (if debug {
            debug_rng_next(*old(debug_rng))
        } else {
            *old(debug_rng)
        }),
        forall|px: int, py: int|
            old(surface).in_bounds(px, py) && !r1.contains(px, py) ==> final(surface).pixel(px, py)
                == old(surface).pixel(px, py),
{
    renderer.set_clip_rect(r1);
    let nc = commands.len();
    let mut ci: usize = 0;
    while ci < nc
        invariant
            surface.wf(),
            surface.width == old(surface).width,
            surface.height == old(surface).height,
            ids_unique(fonts@),
            forall|j: int| 0 <= j < fonts@.len() ==> (#[trigger] fonts@[j]).1.wf(),
            forall|k: int|
                0 <= k < commands@.len() ==> cmd_wf_for(
                    fonts@,
                    Rect { x: 0, y: 0, width: old(surface).width, height: old(surface).height },
                    #[trigger] commands@[k],
                ),
            r1.wf(),
            r1.width >= 0,
            r1.height >= 0,
            0 <= r1.x,
            0 <= r1.y,
            r1.right() <= old(surface).width,
            r1.bottom() <= old(surface).height,
            nc == commands@.len(),
            ci <= nc,
            renderer.clip.valid_for(*surface),
            renderer.clip == replay_clip(commands@, r1, ci as int),
            *debug_rng == *old(debug_rng),
            forall|px: int, py: int| renderer.clip.contains(px, py) ==> r1.contains(px, py),
            forall|px: int, py: int|
                old(surface).in_bounds(px, py) ==> #[trigger] surface.pixel(px, py) == pass_pixel(
                    commands@,
                    fonts@,
                    r1,
                    ci as int,
                    old(surface).pixel(px, py),
                    px,
                    py,
                ),
            forall|px: int, py: int|
                old(surface).in_bounds(px, py) && !r1.contains(px, py) ==> surface.pixel(px, py)
                    == old(surface).pixel(px, py),
        decreases nc - ci,
    {
        let c = &commands[ci];
        let ghost pre = *surface;
        replay_cmd(renderer, surface, fonts, c, r1);
        proof {
            assert forall|px: int, py: int|
                old(surface).in_bounds(px, py) implies #[trigger] surface.pixel(px, py)
                == pass_pixel(
                commands@,
                fonts@,
                r1,
                ci + 1,
                old(surface).pixel(px, py),
                px,
                py,
            ) by {
                assert(surface.pixel(px, py) == cmd_pixel(
                    commands@[ci as int],
                    fonts@,
                    replay_clip(commands@, r1, ci as int),
                    pre.pixel(px, py),
                    px,
                    py,
                ));
            }
        }
        ci = ci + 1;
    }
    if debug {
        let rng0 = *debug_rng;
        let s0 = lcg_step(rng0);
        let s1 = lcg_step(s0);
        let s2 = lcg_step(s1);
        *debug_rng = s2;
        let color = Color {
            b: (s0 / 65536 % 256) as u8,
            g: (s1 / 65536 % 256) as u8,
            r: (s2 / 65536 % 256) as u8,
            a: 50,
        };
        proof {
            assert(color == debug_color(rng0));
            assert(s2 == debug_rng_next(rng0));
        }
        renderer.draw_rect(surface, r1, color);
    }
}

/// Replays the command log once per dirty rectangle, in discovery order.
/// No pixel outside the dirty rectangles changes.
fn replay(
    renderer: &mut Renderer,
    surface: &mut Image,
    fonts: &Vec<(FontId, Font)>,
    commands: &Vec<Command>,
    out: &Vec<Rect>,
    debug: bool,
    debug_rng: &mut u32,
)
    requires
        old(surface).wf(),
        ids_unique(fonts@),
        forall|j: int| 0 <= j < fonts@.len() ==> (#[trigger] fonts@[j]).1.wf(),
        forall|k: int|
            0 <= k < commands@.len() ==> cmd_wf_for(
                fonts@,
                Rect { x: 0, y: 0, width: old(surface).width, height: old(surface).height },
                #[trigger] commands@[k],
            ),
        forall|j: int|
            0 <= j < out@.len() ==> {
                let r = #[trigger] out@[j];
                &&& r.wf()
                &&& r.width >= 0
                &&& r.height >= 0
                &&& 0 <= r.x
                &&& 0 <= r.y
                &&& r.right() <= old(surface).width
                &&& r.bottom() <= old(surface).height
            },
    ensures
        final(surface).wf(),
        final(surface).width == old(surface).width,
        final(surface).height == old(surface).height,
        forall|px: int, py: int|
            old(surface).in_bounds(px, py) ==> #[trigger] final(surface).pixel(px, py)
                == rects_pixel(
                commands@,
                fonts@,
                out@,
                debug,
                *old(debug_rng),
                out@.len() as int,
                old(surface).pixel(px, py),
                px,
                py,
            ),
        *final(debug_rng) == rng_after(*old(debug_rng), debug, out@.len() as int),
        forall|px: int, py: int|
            old(surface).in_bounds(px, py) && !crate::rect_buffer::covers(out@, px, py) ==> final(surface).pixel(px, py) == old(surface).pixel(px, py),
{
    let nr = out.len();
    let mut ri: usize = 0;
    while ri < nr
        invariant
            surface.wf(),
            surface.width == old(surface).width,
            surface.height == old(surface).height,
            ids_unique(fonts@),
            forall|j: int| 0 <= j < fonts@.len() ==> (#[trigger] fonts@[j]).1.wf(),
            forall|k: int|
                0 <= k < commands@.len() ==> cmd_wf_for(
                    fonts@,
                    Rect { x: 0, y: 0, width: old(surface).width, height: old(surface).height },
                    #[trigger] commands@[k],
                ),
            forall|j: int|
                0 <= j < out@.len() ==> {
                    let r = #[trigger] out@[j];
                    &&& r.wf()
                    &&& r.width >= 0
                    &&& r.height >= 0
                    &&& 0 <= r.x
                    &&& 0 <= r.y
                    &&& r.right() <= old(surface).width
                    &&& r.bottom() <= old(surface).height
                },
            nr == out@.len(),
            ri <= nr,
            *debug_rng == rng_after(*old(debug_rng), debug, ri as int),
            forall|px: int, py: int|
                old(surface).in_bounds(px, py) ==> #[trigger] surface.pixel(px, py) == rects_pixel(
                    commands@,
                    fonts@,
                    out@,
                    debug,
                    *old(debug_rng),
                    ri as int,
                    old(surface).pixel(px, py),
                    px,
                    py,
                ),
            forall|px: int, py: int|
                old(surface).in_bounds(px, py) && !crate::rect_buffer::covers(out@, px, py)
                    ==> surface.pixel(px, py) == old(surface).pixel(px, py),
        decreases nr - ri,
    {
        let r1 = out[ri];
        let ghost pre = *surface;
        let ghost rng_pre = *debug_rng;
        replay_pass(renderer, surface, fonts, commands, r1, debug, debug_rng);
        proof {
            assert forall|px: int, py: int|
                old(surface).in_bounds(px, py) implies #[trigger] surface.pixel(px, py)
                == rects_pixel(
                commands@,
                fonts@,
                out@,
                debug,
                *old(debug_rng),
                ri + 1,
                old(surface).pixel(px, py),
                px,
                py,
            ) by {
                assert(surface.pixel(px, py) == pass_result(
                    commands@,
                    fonts@,
                    r1,
                    debug,
                    rng_pre,
                    pre.pixel(px, py),
                    px,
                    py,
                ));
            }
            assert forall|px: int, py: int|
                old(surface).in_bounds(px, py) && !crate::rect_buffer::covers(out@, px, py) implies
                surface.pixel(px, py) == old(surface).pixel(px, py) by {
                if r1.contains(px, py) {
                    assert(out@[ri as int].contains(px, py));
                    assert(crate::rect_buffer::covers(out@, px, py));
                } else {
                    assert(surface.pixel(px, py) == pre.pixel(px, py));
                }
            }
        }
        ri = ri + 1;
    }
}

/// Whether some command of the log releases this font.
fn is_freed(commands: &Vec<Command>, id: FontId) -> (b: bool)
    ensures
        b == freed_in(commands@, id),
{
    let n = commands.len();
    let mut k: usize = 0;
    while k < n
        invariant
            n == commands@.len(),
            k <= n,
            forall|j: int| 0 <= j < k ==> !frees_font(#[trigger] commands@[j], id),
        decreases n - k,
    {
        match &commands[k] {
            Command::FreeFont { font } => {
                if *font == id {
                    assert(frees_font(commands@[k as int], id));
                    return true;
                }
            },
            _ => {
            },
        }
        k = k + 1;
    }
    false
}

/// The entry appears somewhere in the original font table.
pub open spec fn entry_from(orig: Seq<(FontId, Font)>, e: (FontId, Font)) -> bool {
    exists|k: int| 0 <= k < orig.len() && orig[k] == e
}

/// Drops every font whose release was recorded this frame, after all replay
/// passes are done. Fonts without a recorded release are kept untouched.
#[verifier::rlimit(100)]
fn drop_freed(fonts: &mut Vec<(FontId, Font)>, commands: &Vec<Command>)
    requires
        ids_unique(old(fonts)@),
    ensures
        ids_unique(final(fonts)@),
        forall|j: int|
            0 <= j < final(fonts)@.len() ==> entry_from(old(fonts)@, #[trigger] final(fonts)@[j]),
        forall|id: FontId|
            contains_id(final(fonts)@, id) <==> contains_id(old(fonts)@, id) && !freed_in(
                commands@,
                id,
            ),
        forall|id: FontId|
            contains_id(final(fonts)@, id) ==> font_by_id(final(fonts)@, id) == font_by_id(
                old(fonts)@,
                id,
            ),
{
    let ghost orig = old(fonts)@;
    proof {
        assert forall|k: int|
            0 <= k < fonts@.len() implies entry_from(orig, #[trigger] fonts@[k]) by {
            assert(orig[k] == fonts@[k]);
        }
    }
    let mut j: usize = 0;
    while j < fonts.len()
        invariant
            ids_unique(fonts@),
            j <= fonts@.len(),
            forall|k: int| 0 <= k < fonts@.len() ==> entry_from(orig, #[trigger] fonts@[k]),
            forall|k: int| 0 <= k < j ==> !freed_in(commands@, (#[trigger] fonts@[k]).0),
            forall|id: FontId|
                contains_id(orig, id) && !freed_in(commands@, id) ==> contains_id(fonts@, id),
        decreases fonts@.len() - j,
    {
        let id = fonts[j].0;
        if is_freed(commands, id) {
            let ghost pre = fonts@;
            let _dropped = fonts.swap_remove(j);
            proof {
                let cur = fonts@;
                assert(cur == pre.update(j as int, pre.last()).drop_last());
                assert forall|k: int|
                    0 <= k < cur.len() implies entry_from(orig, #[trigger] cur[k]) by {
                    if k == j {
                        assert(cur[k] == pre.last());
                        assert(pre.last() == pre[pre.len() - 1]);
                        assert(entry_from(orig, pre[pre.len() - 1]));
                    } else {
                        assert(cur[k] == pre[k]);
                        assert(entry_from(orig, pre[k]));
                    }
                }
                assert forall|k1: int, k2: int| 0 <= k1 < k2 < cur.len() implies (
                #[trigger] cur[k1]).0 != (#[trigger] cur[k2]).0 by {
                    let p1: int = if k1 == j {
                        pre.len() - 1
                    } else {
                        k1
                    };
                    let p2: int = if k2 == j {
                        pre.len() - 1
                    } else {
                        k2
                    };
                    assert(cur[k1] == pre[p1]);
                    assert(cur[k2] == pre[p2]);
                    if p1 < p2 {
                        assert(pre[p1].0 != pre[p2].0);
                    } else {
                        assert(pre[p2].0 != pre[p1].0);
                    }
                }
                assert forall|id2: FontId|
                    contains_id(orig, id2) && !freed_in(commands@, id2) implies contains_id(
                    cur,
                    id2,
                ) by {
                    let k = idx_of_id(pre, id2);
                    assert(pre[k].0 == id2);
                    assert(k != j);
                    if k == pre.len() - 1 {
                        assert(j < cur.len());
                        assert(cur[j as int] == pre[k]);
                    } else {
                        assert(cur[k] == pre[k]);
                    }
                }
            }
        } else {
            j = j + 1;
        }
    }
    proof {
        assert forall|id: FontId|
            contains_id(fonts@, id) implies contains_id(orig, id) && !freed_in(commands@, id) by {
            let jj = idx_of_id(fonts@, id);
            assert(fonts@[jj].0 == id);
            assert(!freed_in(commands@, fonts@[jj].0));
            assert(entry_from(orig, fonts@[jj]));
            let k2 = choose|k2: int| 0 <= k2 < orig.len() && orig[k2] == fonts@[jj];
            assert(orig[k2].0 == id);
        }
        assert forall|id: FontId| contains_id(fonts@, id) implies font_by_id(fonts@, id)
            == font_by_id(orig, id) by {
            let jj = idx_of_id(fonts@, id);
            lemma_font_at(fonts@, jj);
            assert(entry_from(orig, fonts@[jj]));
            let k2 = choose|k2: int| 0 <= k2 < orig.len() && orig[k2] == fonts@[jj];
            lemma_font_at(orig, k2);
        }
    }
}

} // verus!
