use rencache::font::{BakedPage, Font, GlyphMetric, MeasureError};

fn metric(adv: i32) -> GlyphMetric {
    GlyphMetric { x0: 0, y0: 0, x1: 2, y1: 2, xoff: 0, yoff: 0, xadvance: adv }
}

fn page(adv: i32) -> BakedPage {
    BakedPage {
        atlas_width: 8,
        atlas_height: 8,
        coverage: vec![255u8; 64],
        glyphs: vec![metric(adv); 256],
    }
}

fn font() -> Font {
    Font::new(16, 12, page(3), 5).expect("valid page data")
}

#[test]
fn load_rejects_bad_page_data() {
    let mut bad = page(3);
    bad.coverage.pop();
    assert!(Font::new(16, 12, bad, 5).is_none());
    let mut bad_metric = page(3);
    bad_metric.glyphs[0].x1 = 100;
    assert!(Font::new(16, 12, bad_metric, 5).is_none());
    assert!(Font::new(16, -1, page(3), 5).is_none());
}

#[test]
fn measure_width_empty_text_is_zero() {
    let f = font();
    assert_eq!(f.measure_width(""), Ok(0));
}

#[test]
fn measure_width_sums_floored_advances() {
    let f = font();
    assert_eq!(f.measure_width("A"), Ok(3));
    assert_eq!(f.measure_width("AB"), Ok(6));
    assert_eq!(f.measure_width("hello"), Ok(15));
}

#[test]
fn line_height_is_the_load_time_value_and_stable() {
    let f = font();
    assert_eq!(f.line_height(), 12);
    assert_eq!(f.line_height(), 12);
    let _ = f.measure_width("abc");
    assert_eq!(f.line_height(), 12);
}

#[test]
fn measure_width_reports_first_missing_page() {
    let f = font();
    // U+0100 lives on glyph page 1, which only page 0 was installed.
    assert_eq!(f.measure_width("A\u{100}B"), Err(MeasureError::MissingPage(1)));
}

#[test]
fn installing_a_page_makes_its_codepoints_measurable() {
    let mut f = font();
    assert!(f.install_page(1, page(4), 5));
    // One codepoint of page 0 (advance 3) plus one of page 1 (advance 4).
    assert_eq!(f.measure_width("A\u{100}"), Ok(7));
}

#[test]
fn install_page_rejects_out_of_range_metrics() {
    let mut f = font();
    let mut bad = page(4);
    bad.glyphs[7].yoff = 100000;
    assert!(!f.install_page(1, bad, 5));
    assert_eq!(f.measure_width("\u{100}"), Err(MeasureError::MissingPage(1)));
}

#[test]
fn set_tab_width_overrides_tab_advance_exactly() {
    let mut f = font();
    assert_eq!(f.measure_width("\t"), Ok(3));
    f.set_tab_width(7);
    assert_eq!(f.measure_width("\t"), Ok(7));
    assert_eq!(f.measure_width("A\tA"), Ok(13));
}

#[test]
fn load_patches_control_glyph_bitmaps_to_zero_width() {
    let f = font();
    let set = f.sets[0].as_ref().expect("page 0 installed at load");
    assert_eq!(set.glyphs[9].x1, set.glyphs[9].x0);
    assert_eq!(set.glyphs[10].x1, set.glyphs[10].x0);
    // Their advances are untouched by the patch.
    assert_eq!(set.glyphs[9].xadvance, 3);
}

#[test]
fn baseline_shift_applies_to_every_glyph() {
    let f = font();
    let set = f.sets[0].as_ref().expect("page 0 installed at load");
    assert_eq!(set.glyphs[65].yoff, 5);
}

#[test]
fn atlas_is_white_with_coverage_alpha() {
    let f = font();
    let set = f.sets[0].as_ref().expect("page 0 installed at load");
    let px = set.image.pixels[0];
    assert_eq!((px.r, px.g, px.b, px.a), (255, 255, 255, 255));
}
