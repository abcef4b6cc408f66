use rencache::color::Color;
use rencache::font::{BakedPage, Font, GlyphMetric, MeasureError};
use rencache::geometry::Rect;
use rencache::rencache::RenCache;

const RED: Color = Color { b: 0, g: 0, r: 255, a: 255 };
const WHITE: Color = Color { b: 255, g: 255, r: 255, a: 255 };

fn covers_point(out: &[Rect], px: i32, py: i32) -> bool {
    out.iter().any(|r| r.x <= px && px < r.x + r.width && r.y <= py && py < r.y + r.height)
}

fn test_font() -> Font {
    let page = BakedPage {
        atlas_width: 8,
        atlas_height: 8,
        coverage: vec![255u8; 64],
        glyphs: vec![
            GlyphMetric { x0: 0, y0: 0, x1: 2, y1: 2, xoff: 0, yoff: 0, xadvance: 3 };
            256
        ],
    };
    Font::new(16, 12, page, 5).expect("valid page data")
}

#[test]
fn first_frame_reports_full_screen_and_identical_repeat_reports_nothing() {
    // Screen 800x600; frame 1: clip to the full screen and fill a 100x100
    // rectangle; frame 2 repeats the identical commands.
    let mut cache = RenCache::init(800, 600);
    let full = Rect { x: 0, y: 0, width: 800, height: 600 };
    let square = Rect { x: 0, y: 0, width: 100, height: 100 };

    cache.begin_frame(800, 600);
    cache.set_clip_rect(full);
    cache.draw_rect(square, RED);
    let frame1 = cache.end_frame();
    assert!(!frame1.is_empty());
    assert!(covers_point(&frame1, 0, 0));
    assert!(covers_point(&frame1, 99, 99));

    cache.begin_frame(800, 600);
    cache.set_clip_rect(full);
    cache.draw_rect(square, RED);
    let frame2 = cache.end_frame();
    assert!(frame2.is_empty());
}

#[test]
fn changed_command_reports_damage_covering_the_change() {
    let mut cache = RenCache::init(800, 600);
    let square = Rect { x: 0, y: 0, width: 100, height: 100 };
    cache.begin_frame(800, 600);
    cache.draw_rect(square, RED);
    cache.end_frame();

    // Same position, different color: the content hash differs.
    cache.begin_frame(800, 600);
    cache.draw_rect(square, WHITE);
    let dirty = cache.end_frame();
    assert!(!dirty.is_empty());
    assert!(covers_point(&dirty, 0, 0));
    assert!(covers_point(&dirty, 99, 99));

    // A frame that stops issuing the rectangle is also damage.
    cache.begin_frame(800, 600);
    let dirty = cache.end_frame();
    assert!(!dirty.is_empty());
    assert!(covers_point(&dirty, 50, 50));

    // And an empty log repeated stays clean.
    cache.begin_frame(800, 600);
    let dirty = cache.end_frame();
    assert!(dirty.is_empty());
}

#[test]
fn opaque_fill_writes_exact_color_and_transparent_fill_writes_nothing() {
    let mut cache = RenCache::init(800, 600);
    cache.begin_frame(800, 600);
    cache.draw_rect(Rect { x: 0, y: 0, width: 10, height: 10 }, RED);
    cache.draw_rect(
        Rect { x: 20, y: 0, width: 10, height: 10 },
        Color { b: 255, g: 255, r: 255, a: 0 },
    );
    cache.end_frame();
    // Opaque fast path: the exact color, alpha byte included.
    assert_eq!(cache.surface.pixels[0], RED);
    assert_eq!(cache.surface.pixels[9], RED);
    // Fully transparent draw: surface untouched.
    assert_eq!(cache.surface.pixels[20], Color { b: 0, g: 0, r: 0, a: 0 });
}

#[test]
fn half_alpha_fill_blends_exactly() {
    let mut cache = RenCache::init(800, 600);
    cache.begin_frame(800, 600);
    cache.draw_rect(
        Rect { x: 0, y: 0, width: 4, height: 4 },
        Color { b: 0, g: 0, r: 255, a: 128 },
    );
    cache.end_frame();
    // (255*128 + 0*127) / 256 = 127 on the red channel, over black.
    assert_eq!(cache.surface.pixels[0], Color { b: 0, g: 0, r: 127, a: 0 });
}

#[test]
fn draw_outside_clip_changes_no_pixel_and_repeat_is_clean() {
    let mut cache = RenCache::init(800, 600);
    cache.begin_frame(800, 600);
    cache.set_clip_rect(Rect { x: 0, y: 0, width: 50, height: 50 });
    cache.draw_rect(Rect { x: 100, y: 100, width: 50, height: 50 }, RED);
    cache.end_frame();
    let idx = (100 * 800 + 100) as usize;
    assert_eq!(cache.surface.pixels[idx], Color { b: 0, g: 0, r: 0, a: 0 });

    cache.begin_frame(800, 600);
    cache.set_clip_rect(Rect { x: 0, y: 0, width: 50, height: 50 });
    cache.draw_rect(Rect { x: 100, y: 100, width: 50, height: 50 }, RED);
    let dirty = cache.end_frame();
    assert!(dirty.is_empty());
}

#[test]
fn empty_rectangles_are_culled_at_recording() {
    let mut cache = RenCache::init(800, 600);
    cache.begin_frame(800, 600);
    cache.end_frame();
    // A zero-area fill overlaps nothing, so it never enters the log: the
    // frame is identical to an empty one.
    cache.begin_frame(800, 600);
    cache.draw_rect(Rect { x: 10, y: 10, width: 0, height: 50 }, RED);
    assert_eq!(cache.commands.len(), 0);
    let dirty = cache.end_frame();
    assert!(dirty.is_empty());
}

#[test]
fn invalidate_forces_full_screen_damage() {
    let mut cache = RenCache::init(800, 600);
    cache.begin_frame(800, 600);
    cache.end_frame();
    cache.begin_frame(800, 600);
    let clean = cache.end_frame();
    assert!(clean.is_empty());

    cache.invalidate();
    cache.begin_frame(800, 600);
    let dirty = cache.end_frame();
    assert!(covers_point(&dirty, 0, 0));
    assert!(covers_point(&dirty, 799, 599));
    assert!(covers_point(&dirty, 400, 300));
}

#[test]
fn resize_invalidates_and_resizes_the_surface() {
    let mut cache = RenCache::init(800, 600);
    cache.begin_frame(800, 600);
    cache.end_frame();
    cache.begin_frame(640, 480);
    assert_eq!(cache.surface.width, 640);
    assert_eq!(cache.surface.height, 480);
    let dirty = cache.end_frame();
    assert!(covers_point(&dirty, 0, 0));
    assert!(covers_point(&dirty, 639, 479));
}

#[test]
fn draw_text_returns_pen_advance_and_is_deterministic() {
    let mut cache = RenCache::init(800, 600);
    let f = cache.add_font(test_font());
    cache.begin_frame(800, 600);
    let first = cache.draw_text(f, "AB", 10, 20, WHITE);
    assert_eq!(first, Ok(10 + 6));
    assert_eq!(cache.measure_width(f, "AB"), Ok(6));
    let again = cache.draw_text(f, "AB", 10, 20, WHITE);
    assert_eq!(again, Ok(16));
    let frame1 = cache.end_frame();
    assert!(!frame1.is_empty());

    cache.begin_frame(800, 600);
    assert_eq!(cache.draw_text(f, "AB", 10, 20, WHITE), Ok(16));
    assert_eq!(cache.draw_text(f, "AB", 10, 20, WHITE), Ok(16));
    let frame2 = cache.end_frame();
    assert!(frame2.is_empty());
}

#[test]
fn draw_text_off_screen_still_returns_advance_without_recording() {
    let mut cache = RenCache::init(800, 600);
    let f = cache.add_font(test_font());
    cache.begin_frame(800, 600);
    cache.end_frame();
    cache.begin_frame(800, 600);
    // Far below the screen: culled, but layout still advances.
    assert_eq!(cache.draw_text(f, "AB", 10, 5000, WHITE), Ok(16));
    let dirty = cache.end_frame();
    assert!(dirty.is_empty());
}

#[test]
fn draw_text_missing_page_and_too_wide_errors() {
    let mut cache = RenCache::init(800, 600);
    let f = cache.add_font(test_font());
    cache.begin_frame(800, 600);
    assert_eq!(
        cache.draw_text(f, "\u{100}", 0, 0, WHITE),
        Err(MeasureError::MissingPage(1))
    );
    assert_eq!(
        cache.draw_text(f, "A", 0x2000_0000, 0, WHITE),
        Err(MeasureError::TooWide)
    );
    assert_eq!(cache.measure_width(f, "\u{100}"), Err(MeasureError::MissingPage(1)));
}

#[test]
fn freeing_a_font_in_the_frame_that_draws_it_still_renders_the_text() {
    let mut cache = RenCache::init(800, 600);
    let f = cache.add_font(test_font());
    cache.begin_frame(800, 600);
    assert_eq!(cache.draw_text(f, "A", 0, 0, WHITE), Ok(3));
    cache.free_font(f);
    let dirty = cache.end_frame();
    assert!(!dirty.is_empty());
    // The glyph bitmap (2x2 fully covered, baseline-shifted down 5 pixels)
    // was still blended during replay: the release only ran afterwards.
    let idx = (5 * 800) as usize;
    assert_eq!(cache.surface.pixels[idx], Color { b: 252, g: 252, r: 252, a: 0 });
}

#[test]
fn command_log_overflow_drops_commands_and_flags_it() {
    let mut cache = RenCache::init(800, 600);
    cache.begin_frame(800, 600);
    let r = Rect { x: 0, y: 0, width: 1, height: 1 };
    for _ in 0..rencache::command::MAX_COMMANDS {
        cache.draw_rect(r, RED);
    }
    assert!(!cache.overflowed);
    cache.draw_rect(r, RED);
    assert!(cache.overflowed);
    assert_eq!(cache.commands.len(), rencache::command::MAX_COMMANDS);
    let dirty = cache.end_frame();
    assert!(!dirty.is_empty());
    // Ending the frame clears the flag: it reports drops per recorded log.
    assert!(!cache.overflowed);
}

#[test]
fn set_tab_width_changes_measurement_through_the_cache() {
    let mut cache = RenCache::init(800, 600);
    let f = cache.add_font(test_font());
    assert_eq!(cache.measure_width(f, "\t"), Ok(3));
    cache.set_tab_width(f, 9);
    assert_eq!(cache.measure_width(f, "\t"), Ok(9));
    assert_eq!(cache.font_height(f), 12);
}

#[test]
fn install_page_through_the_cache() {
    let mut cache = RenCache::init(800, 600);
    let f = cache.add_font(test_font());
    assert_eq!(cache.measure_width(f, "\u{100}"), Err(MeasureError::MissingPage(1)));
    let page = BakedPage {
        atlas_width: 8,
        atlas_height: 8,
        coverage: vec![0u8; 64],
        glyphs: vec![
            GlyphMetric { x0: 0, y0: 0, x1: 1, y1: 1, xoff: 0, yoff: 0, xadvance: 5 };
            256
        ],
    };
    assert!(cache.install_page(f, 1, page, 5));
    assert_eq!(cache.measure_width(f, "\u{100}"), Ok(5));
}
